//! Internal tables: where a table's data lives on disk (its slug and directory), the
//! staging guard a spool publishes through, and the wording of column refusals and drops.

use vstd::prelude::*;
use vstd::string::*;
use vstd::utf8::encode_utf8;

use crate::ddl::{label_text, left_invalid_text, StmtKind};
use crate::ddl::left_invalid;
use crate::names::{fold_ident, folded, parsed_bare_table};
use crate::text::{append_chars, append_str, chars_of, is_alpha, is_digit, push_hex, hex_digits, string_of, string_views};
use crate::util::{plural, plural_text};

verus! {

// ---- the slug ----------------------------------------------------------------------------

/// The FNV-1a state after the bytes `b`.
pub open spec fn fnv_state(b: Seq<u8>) -> u64
    decreases b.len(),
{
    if b.len() == 0 {
        0xcbf2_9ce4_8422_2325u64
    } else {
        (fnv_state(b.drop_last()) ^ (b.last() as u64)).wrapping_mul(0x0000_0100_0000_01b3u64)
    }
}

/// FNV-1a of `b`, folded to 32 bits: the high half xored onto the low half.
pub open spec fn hash32_of(b: Seq<u8>) -> u32 {
    (fnv_state(b) ^ (fnv_state(b) >> 32u64)) as u32
}

/// A stable 32-bit hash of the UTF-8 bytes of `s`: FNV-1a, folded to 32 bits. Stable by
/// construction, so a slug written into a project names the same directory next year.
pub fn hash32(s: &str) -> (r: u32)
    ensures
        r == hash32_of(s.spec_bytes()),
{
    let bytes = s.as_bytes();
    let mut h: u64 = 0xcbf2_9ce4_8422_2325;
    let mut i: usize = 0;
    while i < bytes.len()
        invariant
            i <= bytes@.len(),
            bytes@ == s.spec_bytes(),
            h == fnv_state(bytes@.take(i as int)),
        decreases bytes@.len() - i,
    {
        assert(bytes@.take(i + 1).drop_last() =~= bytes@.take(i as int));
        h = (h ^ (bytes[i] as u64)).wrapping_mul(0x0000_0100_0000_01b3);
        i = i + 1;
    }
    assert(bytes@.take(bytes@.len() as int) =~= bytes@);
    (h ^ (h >> 32)) as u32
}

/// A character a directory name may carry as it is.
pub open spec fn is_slug_char(c: char) -> bool {
    ('a' <= c <= 'z') || ('A' <= c <= 'Z') || ('0' <= c <= '9') || c == '_' || c == '-'
}

/// `name` with every character a directory name may not carry replaced by `_`.
pub open spec fn sanitized(name: Seq<char>) -> Seq<char> {
    name.map_values(|c: char| if is_slug_char(c) { c } else { '_' })
}

/// The directory name for `name`: the name itself where it is already a safe, non-empty
/// file name, else the sanitized name, a `-`, and the eight lower-case hex digits of
/// [`hash32`] of the original — the hash keeps names that sanitize alike apart.
pub open spec fn slug_text(name: Seq<char>) -> Seq<char> {
    if sanitized(name) == name && name.len() > 0 {
        name
    } else {
        sanitized(name) + seq!['-'] + hex_digits(hash32_of(encode_utf8(name)) as nat, 8)
    }
}

/// The directory name that holds `name`'s data, [`slug_text`].
pub fn slug(name: &str) -> (r: String)
    ensures
        r@ == slug_text(name@),
{
    let c = chars_of(name);
    let mut safe: Vec<char> = Vec::new();
    let mut changed = false;
    assert(safe@ =~= c@.take(0));
    for i in 0..c.len()
        invariant
            c@ == name@,
            safe@ == sanitized(c@.take(i as int)),
            changed == (safe@ != c@.take(i as int)),
    {
        let ch = c[i];
        let keep = is_alpha(ch) || is_digit(ch) || ch == '_' || ch == '-';
        let out = if keep { ch } else { '_' };
        let ghost before = safe@;
        safe.push(out);
        proof {
            assert(c@.take(i + 1) =~= c@.take(i as int).push(ch));
            assert(sanitized(c@.take(i + 1)) =~= before.push(out));
            if !changed {
                if keep {
                    assert(safe@ =~= c@.take(i + 1));
                } else {
                    assert(safe@[i as int] != c@.take(i + 1)[i as int]);
                }
            } else {
                if safe@ == c@.take(i + 1) {
                    assert(before =~= c@.take(i as int)) by {
                        assert(safe@.drop_last() =~= before);
                        assert(c@.take(i + 1).drop_last() =~= c@.take(i as int));
                    }
                }
            }
        }
        if !keep {
            changed = true;
        }
    }
    assert(c@.take(c@.len() as int) =~= c@);
    if !changed && c.len() > 0 {
        return string_of(&safe);
    }
    let mut out = safe;
    out.push('-');
    push_hex(&mut out, hash32(name) as u64, 8);
    string_of(&out)
}

/// The directory name for the table called `name`: the slug of its engine identity, so a
/// create and a drop cannot disagree about where a table's files are.
pub open spec fn table_slug_text(name: Seq<char>) -> Seq<char> {
    slug_text(folded(parsed_bare_table(name), name))
}

/// The directory name `name`'s data lives in: [`slug`] of [`fold_ident`].
pub fn table_slug(name: &str) -> (r: String)
    ensures
        r@ == table_slug_text(name@),
{
    let f = fold_ident(name);
    slug(f.as_str())
}

/// A directory as the writer and the reader both have to name it: with a trailing
/// separator, without which it would be read as a single file.
pub fn dir_path(dir: &str) -> (r: String)
    ensures
        r@ == dir@.push('/'),
{
    let mut v = chars_of(dir);
    v.push('/');
    string_of(&v)
}

/// The directory holding `name`'s data: [`table_slug`] under the project's tables
/// directory `tables`.
pub fn table_dir(tables: &str, name: &str) -> (r: String)
    ensures
        r@ == tables@.push('/') + table_slug_text(name@),
{
    let s = table_slug(name);
    let mut v = chars_of(tables);
    v.push('/');
    let sc = chars_of(s.as_str());
    append_chars(&mut v, &sc);
    string_of(&v)
}

// ---- the staging guard -------------------------------------------------------------------

/// The `.tmp-…` directory a spool fills, to be removed on every way out that is not a
/// successful rename into place.
pub struct Staging {
    pub dir: String,
    pub armed: bool,
}

impl Staging {
    /// A guard over `dir`, armed.
    pub fn new(dir: String) -> (r: Staging)
        ensures
            r.dir == dir,
            r.armed,
    {
        Staging { dir, armed: true }
    }

    /// The directory was renamed into place, so it is no longer ours to remove.
    pub fn published(&mut self)
        ensures
            final(self).dir == old(self).dir,
            !final(self).armed,
    {
        self.armed = false;
    }
}

// ---- wording -----------------------------------------------------------------------------

/// What a repeated column name is refused with.
pub fn duplicate_column(name: &str) -> (r: String)
    ensures
        r@ == "Duplicate column name '"@ + name@ + "'. Alias one of them"@,
{
    let mut v: Vec<char> = Vec::new();
    append_str(&mut v, "Duplicate column name '");
    append_str(&mut v, name);
    append_str(&mut v, "'. Alias one of them");
    string_of(&v)
}

/// What the column-type probe says about a value that plans as something other than one
/// column's type.
pub fn not_a_column_type(typed: &str) -> (r: String)
    ensures
        r@ == "'"@ + typed@ + "' is not a column type"@,
{
    let mut v: Vec<char> = Vec::new();
    append_str(&mut v, "'");
    append_str(&mut v, typed);
    append_str(&mut v, "' is not a column type");
    string_of(&v)
}

/// Where a table's data came from: written by the app under its own directory, or
/// registered over the user's files.
#[derive(Clone, Copy, PartialEq, Eq, Debug, Structural)]
pub enum TableOrigin {
    Internal,
    External,
}

/// The confirm's body copy for dropping a table of this origin.
pub open spec fn drop_intent_text(origin: TableOrigin) -> Seq<char> {
    match origin {
        TableOrigin::Internal => "Removes the table from this project. Its data files under '.strata' are deleted with it."@,
        TableOrigin::External => "Unregisters the table from this project. The source files on disk are not deleted."@,
    }
}

/// What dropping a table of this origin will do, in the words the confirm asks with.
pub fn drop_intent(origin: TableOrigin) -> (r: &'static str)
    ensures
        r@ == drop_intent_text(origin),
{
    match origin {
        TableOrigin::Internal => "Removes the table from this project. Its data files under '.strata' are deleted with it.",
        TableOrigin::External => "Unregisters the table from this project. The source files on disk are not deleted.",
    }
}

/// What a completed drop of `name` reports: the same fact as [`drop_intent`] in the past
/// tense, followed by the views it leaves invalid.
pub open spec fn drop_report_text(name: Seq<char>, origin: TableOrigin, dependents: Seq<Seq<char>>) -> Seq<char> {
    (match origin {
        TableOrigin::Internal => "Table '"@ + name + "' and its data were deleted"@,
        TableOrigin::External => "Table '"@ + name + "' removed from the catalog. Source files were not deleted"@,
    }) + left_invalid_text(dependents)
}

/// What a completed drop reports.
pub fn drop_report(name: &str, origin: TableOrigin, dependents: &[String]) -> (r: String)
    ensures
        r@ == drop_report_text(name@, origin, dependents@.map_values(|d: String| d@)),
{
    let mut v: Vec<char> = Vec::new();
    append_str(&mut v, "Table '");
    append_str(&mut v, name);
    match origin {
        TableOrigin::Internal => append_str(&mut v, "' and its data were deleted"),
        TableOrigin::External => append_str(&mut v, "' removed from the catalog. Source files were not deleted"),
    }
    let tail = left_invalid(dependents);
    let tc = chars_of(tail.as_str());
    append_chars(&mut v, &tc);
    string_of(&v)
}

// ---- create and drop: what the engine's answer about a name decides --------------------------

/// What the engine holds under a name, when it holds anything.
#[derive(Clone, Copy, PartialEq, Eq, Debug, Structural)]
pub enum Existing {
    Table,
    View,
}

/// How a `CREATE TABLE` goes on once the engine has said what holds its name.
#[derive(Debug, PartialEq)]
pub enum CreateStep {
    /// `IF NOT EXISTS` over a taken name: nothing to do, and this is what it reports.
    Nothing(String),
    /// Write the table; `replacing` says whether it takes the place of one.
    Write { replacing: bool },
}

/// The refusal of a table create on an engine with no project folder to store its data in.
pub fn needs_project(kind: StmtKind) -> (r: String)
    ensures
        r@ == label_text(kind) + " needs a project folder to store the table's data"@,
{
    let mut v: Vec<char> = Vec::new();
    append_str(&mut v, kind.label());
    append_str(&mut v, " needs a project folder to store the table's data");
    string_of(&v)
}

/// The decision a `CREATE TABLE name` makes from what holds `name`: a view is never replaced
/// by a table; a taken name is a no-op under `IF NOT EXISTS`, replaced under `OR REPLACE`,
/// and refused otherwise; a free name is created.
pub open spec fn create_step_spec(
    name: Seq<char>,
    existing: Option<Existing>,
    if_not_exists: bool,
    or_replace: bool,
) -> Result<(bool, Option<Seq<char>>), Seq<char>> {
    match existing {
        Some(Existing::View) => Err("'"@ + name + "' is a view"@),
        Some(Existing::Table) => if if_not_exists {
            Ok((false, Some("Table '"@ + name + "' already exists"@)))
        } else if !or_replace {
            Err("Table '"@ + name + "' already exists"@)
        } else {
            Ok((true, None))
        },
        None => Ok((false, None)),
    }
}

/// [`create_step_spec`]: `Ok((replacing, None))` is [`CreateStep::Write`], `Ok((_, Some(m)))`
/// is [`CreateStep::Nothing`] reporting `m`.
pub fn create_step(name: &str, existing: Option<Existing>, if_not_exists: bool, or_replace: bool) -> (r: Result<
    CreateStep,
    String,
>)
    ensures
        match create_step_spec(name@, existing, if_not_exists, or_replace) {
            Ok((replacing, None)) => r == Ok::<CreateStep, String>(CreateStep::Write { replacing }),
            Ok((_, Some(m))) => r matches Ok(CreateStep::Nothing(t)) && t@ == m,
            Err(m) => r matches Err(t) && t@ == m,
        },
{
    match existing {
        Some(Existing::View) => {
            let mut v: Vec<char> = Vec::new();
            append_str(&mut v, "'");
            append_str(&mut v, name);
            append_str(&mut v, "' is a view");
            Err(string_of(&v))
        },
        Some(Existing::Table) => {
            if if_not_exists || !or_replace {
                let mut v: Vec<char> = Vec::new();
                append_str(&mut v, "Table '");
                append_str(&mut v, name);
                append_str(&mut v, "' already exists");
                let m = string_of(&v);
                if if_not_exists {
                    Ok(CreateStep::Nothing(m))
                } else {
                    Err(m)
                }
            } else {
                Ok(CreateStep::Write { replacing: true })
            }
        },
        None => Ok(CreateStep::Write { replacing: false }),
    }
}

/// The engine identity of a column name.
pub open spec fn ident_of(name: Seq<char>) -> Seq<char> {
    folded(parsed_bare_table(name), name)
}

/// The engine identities of `columns`, in order.
pub open spec fn column_idents(columns: Seq<String>) -> Seq<Seq<char>> {
    columns.map_values(|c: String| ident_of(c@))
}

/// No two columns share an engine identity.
pub open spec fn columns_distinct(columns: Seq<String>) -> bool {
    forall|a: int, b: int|
        0 <= a < b < columns.len() ==> #[trigger] column_idents(columns)[a] != #[trigger] column_idents(columns)[b]
}

/// `m` refuses the first column whose identity repeats an earlier one's, naming it in its own
/// spelling.
pub open spec fn first_duplicate_refusal(columns: Seq<String>, m: Seq<char>) -> bool {
    exists|j: int|
        0 <= j < columns.len() && m == "Duplicate column name '"@ + columns[j]@ + "'. Alias one of them"@
            && (exists|k: int| 0 <= k < j && #[trigger] column_idents(columns)[k] == column_idents(columns)[j])
            && forall|a: int, b: int|
            0 <= a < b < j ==> #[trigger] column_idents(columns)[a] != #[trigger] column_idents(columns)[b]
}

/// A table's columns must be told apart by their engine identities: the refusal of the first
/// column whose identity repeats an earlier one's, in its own spelling.
pub fn unique_columns(columns: &[String]) -> (r: Result<(), String>)
    ensures
        match r {
            Ok(()) => columns_distinct(columns@),
            Err(m) => first_duplicate_refusal(columns@, m@),
        },
{
    let ghost ids = column_idents(columns@);
    let mut seen: Vec<Vec<char>> = Vec::new();
    let mut j: usize = 0;
    while j < columns.len()
        invariant
            j <= columns@.len(),
            ids == column_idents(columns@),
            seen@.len() == j,
            forall|q: int| 0 <= q < j ==> (#[trigger] seen@[q])@ == ids[q],
            forall|a: int, b: int| 0 <= a < b < j ==> #[trigger] ids[a] != #[trigger] ids[b],
        decreases columns@.len() - j,
    {
        let f = fold_ident(columns[j].as_str());
        let fc = chars_of(f.as_str());
        assert(fc@ == ids[j as int]);
        let mut k: usize = 0;
        while k < j
            invariant
                k <= j,
                j < columns@.len(),
                ids == column_idents(columns@),
                seen@.len() == j,
                fc@ == ids[j as int],
                forall|q: int| 0 <= q < j ==> (#[trigger] seen@[q])@ == ids[q],
                forall|q: int| 0 <= q < k ==> ids[q] != ids[j as int],
                forall|a: int, b: int| 0 <= a < b < j ==> #[trigger] ids[a] != #[trigger] ids[b],
            decreases j - k,
        {
            if crate::text::same_chars(&seen[k], &fc) {
                let m = duplicate_column(columns[j].as_str());
                assert(ids[k as int] == ids[j as int]);
                return Err(m);
            }
            k = k + 1;
        }
        seen.push(fc);
        j = j + 1;
    }
    Ok(())
}

/// What a completed `CREATE TABLE` reports.
pub open spec fn create_report_text(name: Seq<char>, replacing: bool, rows: nat) -> Seq<char> {
    "Table '"@ + name + "' "@ + (if replacing { "replaced"@ } else { "created"@ }) + ", "@ + plural_text(rows, "row"@)
}

/// [`create_report_text`].
pub fn create_report(name: &str, replacing: bool, rows: usize) -> (r: String)
    ensures
        r@ == create_report_text(name@, replacing, rows as nat),
{
    let mut v: Vec<char> = Vec::new();
    append_str(&mut v, "Table '");
    append_str(&mut v, name);
    append_str(&mut v, "' ");
    if replacing {
        append_str(&mut v, "replaced");
    } else {
        append_str(&mut v, "created");
    }
    append_str(&mut v, ", ");
    let p = plural(rows, "row");
    append_str(&mut v, p.as_str());
    string_of(&v)
}

/// How a `DROP TABLE` goes on once the engine has said what holds its name.
#[derive(Debug, PartialEq)]
pub enum DropStep {
    /// `IF EXISTS` over a free name: nothing to do, and this is what it reports.
    Nothing(String),
    /// Drop the table, whose data is ours to delete exactly when it is internal.
    Drop(TableOrigin),
}

/// The decision a `DROP TABLE name` makes: a view is dropped by `DROP VIEW`; a table is
/// dropped, as internal when the engine wrote its data; a free name is a no-op under
/// `IF EXISTS` and refused otherwise.
pub open spec fn drop_step_spec(name: Seq<char>, existing: Option<Existing>, internal: bool, if_exists: bool) -> Result<
    Result<TableOrigin, Seq<char>>,
    Seq<char>,
> {
    match existing {
        Some(Existing::View) => Err("'"@ + name + "' is a view. Use DROP VIEW"@),
        Some(Existing::Table) => Ok(Ok(if internal { TableOrigin::Internal } else { TableOrigin::External })),
        None => if if_exists {
            Ok(Err("Table '"@ + name + "' does not exist"@))
        } else {
            Err("Table '"@ + name + "' does not exist"@)
        },
    }
}

/// [`drop_step_spec`]: `Ok(Ok(origin))` is [`DropStep::Drop`], `Ok(Err(m))` is
/// [`DropStep::Nothing`] reporting `m`.
pub fn drop_step(name: &str, existing: Option<Existing>, internal: bool, if_exists: bool) -> (r: Result<DropStep, String>)
    ensures
        match drop_step_spec(name@, existing, internal, if_exists) {
            Ok(Ok(o)) => r == Ok::<DropStep, String>(DropStep::Drop(o)),
            Ok(Err(m)) => r matches Ok(DropStep::Nothing(t)) && t@ == m,
            Err(m) => r matches Err(t) && t@ == m,
        },
{
    match existing {
        Some(Existing::View) => {
            let mut v: Vec<char> = Vec::new();
            append_str(&mut v, "'");
            append_str(&mut v, name);
            append_str(&mut v, "' is a view. Use DROP VIEW");
            Err(string_of(&v))
        },
        Some(Existing::Table) => Ok(DropStep::Drop(if internal { TableOrigin::Internal } else { TableOrigin::External })),
        None => {
            let mut v: Vec<char> = Vec::new();
            append_str(&mut v, "Table '");
            append_str(&mut v, name);
            append_str(&mut v, "' does not exist");
            let m = string_of(&v);
            if if_exists {
                Ok(DropStep::Nothing(m))
            } else {
                Err(m)
            }
        },
    }
}

// ---- the column-type probe -------------------------------------------------------------------

/// The statement the column-type probe plans for a typed column type: one throwaway table
/// declaring one column of that type — or the refusal of a blank type.
pub open spec fn probe_text(sql_type: Seq<char>) -> Result<Seq<char>, Seq<char>> {
    let typed = crate::text::trim(sql_type);
    if typed.len() == 0 {
        Err("Enter a column type"@)
    } else {
        Ok("CREATE TABLE __strata_probe (c "@ + typed + ")"@)
    }
}

/// [`probe_text`].
pub fn probe_statement(sql_type: &str) -> (r: Result<String, String>)
    ensures
        match probe_text(sql_type@) {
            Ok(t) => r matches Ok(m) && m@ == t,
            Err(t) => r matches Err(m) && m@ == t,
        },
{
    let c = chars_of(sql_type);
    let t = crate::text::trimmed(&c, 0, c.len());
    assert(c@.subrange(0, c@.len() as int) =~= c@);
    if t.len() == 0 {
        return Err(crate::text::owned("Enter a column type"));
    }
    let mut v: Vec<char> = Vec::new();
    append_str(&mut v, "CREATE TABLE __strata_probe (c ");
    append_chars(&mut v, &t);
    append_str(&mut v, ")");
    Ok(string_of(&v))
}

/// The refusal of a clause the planner accepts and never enforces: table constraints, then
/// column defaults.
pub fn unenforced_clause(has_constraints: bool, has_defaults: bool) -> (r: Option<&'static str>)
    ensures
        if has_constraints {
            r matches Some(m) && m@ == "Table constraints are not supported"@
        } else if has_defaults {
            r matches Some(m) && m@ == "Column defaults are not supported"@
        } else {
            r is None
        },
{
    if has_constraints {
        Some("Table constraints are not supported")
    } else if has_defaults {
        Some("Column defaults are not supported")
    } else {
        None
    }
}

/// What the planner made of the probe statement.
pub struct ProbePlan {
    /// It planned as the creation of a table.
    pub creates_table: bool,
    /// It carries table constraints.
    pub constraints: bool,
    /// It carries column defaults.
    pub defaults: bool,
    /// It declares columns and brings no query along.
    pub declared_only: bool,
    /// The declared columns' types, as the engine's type renders in debug form.
    pub column_types: Vec<String>,
}

/// The probe's answer: the short name of the one column's type, or why the typed value is
/// not one column type — a statement that planned as anything but a bare declaration of
/// exactly one column, or a clause that is never enforced.
pub open spec fn probe_answer(typed: Seq<char>, p: ProbePlan) -> Result<Seq<char>, Seq<char>> {
    let refusal = "'"@ + crate::text::trim(typed) + "' is not a column type"@;
    if !p.creates_table {
        Err(refusal)
    } else if p.constraints {
        Err("Table constraints are not supported"@)
    } else if p.defaults {
        Err("Column defaults are not supported"@)
    } else if !p.declared_only || p.column_types@.len() != 1 {
        Err(refusal)
    } else {
        Ok(crate::catalog::short_type_text(p.column_types@[0]@))
    }
}

/// [`probe_answer`] for the typed value `sql_type`.
pub fn probe_verdict(sql_type: &str, p: &ProbePlan) -> (r: Result<String, String>)
    ensures
        match probe_answer(sql_type@, *p) {
            Ok(t) => r matches Ok(m) && m@ == t,
            Err(t) => r matches Err(m) && m@ == t,
        },
{
    let c = chars_of(sql_type);
    let t = crate::text::trimmed(&c, 0, c.len());
    assert(c@.subrange(0, c@.len() as int) =~= c@);
    let typed = string_of(&t);
    if !p.creates_table {
        return Err(not_a_column_type(typed.as_str()));
    }
    match unenforced_clause(p.constraints, p.defaults) {
        Some(m) => return Err(crate::text::owned(m)),
        None => {},
    }
    if !p.declared_only || p.column_types.len() != 1 {
        return Err(not_a_column_type(typed.as_str()));
    }
    Ok(crate::catalog::short_type(p.column_types[0].as_str()))
}

// ---- a DROP TABLE, step by step ------------------------------------------------------------

/// A copy of a list of names.
fn copy_names(v: &Vec<String>) -> (r: Vec<String>)
    ensures
        string_views(r@) == string_views(v@),
{
    let mut out: Vec<String> = Vec::new();
    for i in 0..v.len()
        invariant
            string_views(out@) == string_views(v@.take(i as int)),
    {
        let n = crate::text::owned(v[i].as_str());
        let ghost before = out@;
        out.push(n);
        assert(string_views(out@) =~= string_views(before).push(n@));
        assert(v@.take(i + 1) =~= v@.take(i as int).push(v@[i as int]));
        assert(string_views(v@.take(i + 1)) =~= string_views(v@.take(i as int)).push(v@[i as int]@));
    }
    assert(v@.take(v@.len() as int) =~= v@);
    out
}

/// The refusal of a drop of an internal table with no project folder to delete its data from.
pub open spec fn no_data_folder_text(name: Seq<char>) -> Seq<char> {
    "Table '"@ + name + "' has no project folder to delete its data from"@
}

/// Where a drop stands: what it waits to hear from the host.
#[derive(Clone, Copy, PartialEq, Eq, Debug, Structural)]
pub enum DropStage {
    /// The views that read the table are being listed.
    Listing,
    /// The table's provider is being deregistered.
    Deregistering,
    /// The table's data is being moved aside and deleted.
    Discarding,
    /// The provider is being put back after a discard that failed.
    Reregistering,
    /// Nothing more: the drop has answered.
    Done,
}

/// What a finished drop answers with: its report, and the views left reading the table when
/// the table is gone (`None` for an `IF EXISTS` drop of nothing).
pub struct DropEnd {
    pub message: String,
    pub removed: Option<Vec<String>>,
}

/// What the host is asked to do next.
pub enum DropAction {
    /// List the views that read the table, while there are still plans to walk.
    ListDependents,
    /// Deregister the table's provider, keeping it to put back.
    Deregister,
    /// Move the table's data directory aside, then delete it.
    Discard,
    /// Put the deregistered provider back: the discard failed, so nothing was destroyed.
    Reregister,
    /// Answer the statement.
    Finish(Result<DropEnd, String>),
}

/// What the host hands back after an action.
pub enum DropEvent {
    /// The views that read the table.
    Dependents(Vec<String>),
    /// The provider is deregistered, or why not; and whether the table's data directory is
    /// there to discard.
    Deregistered { result: Result<(), String>, data_present: bool },
    /// The data is gone, or why not.
    Discarded(Result<(), String>),
    /// The provider is back.
    Reregistered,
}

/// A `DROP TABLE` under way: the table, where its data came from, where it stands, the views
/// that read it, and the failure it will report once the provider is back.
pub struct DropFlow {
    pub name: String,
    pub origin: TableOrigin,
    pub stage: DropStage,
    pub dependents: Vec<String>,
    pub failure: String,
}

/// The event a drop at `stage` waits for.
pub open spec fn drop_expects(stage: DropStage, event: DropEvent) -> bool {
    match event {
        DropEvent::Dependents(_) => stage == DropStage::Listing,
        DropEvent::Deregistered { .. } => stage == DropStage::Deregistering,
        DropEvent::Discarded(_) => stage == DropStage::Discarding,
        DropEvent::Reregistered => stage == DropStage::Reregistering,
    }
}

/// `a` answers the drop `f` as done: its report, and the table gone with its dependents.
pub open spec fn drop_done(a: DropAction, f: DropFlow) -> bool {
    a matches DropAction::Finish(Ok(e)) && e.message@ == drop_report_text(
        f.name@,
        f.origin,
        string_views(f.dependents@),
    ) && (e.removed matches Some(d) && string_views(d@) == string_views(f.dependents@))
}

/// Begin a `DROP TABLE name` on what the engine holds under `name`: refusals and the
/// `IF EXISTS` no-op answer at once, before anything is touched; a drop goes on to list the
/// table's dependents. An internal table whose data has no project folder is refused here
/// too, rather than half-dropped.
pub fn start_drop(name: &str, existing: Option<Existing>, internal: bool, if_exists: bool, has_root: bool) -> (r: (
    DropFlow,
    DropAction,
))
    ensures
        r.0.name@ == name@,
        match drop_step_spec(name@, existing, internal, if_exists) {
            Err(m) => r.1 matches DropAction::Finish(Err(t)) && t@ == m && r.0.stage == DropStage::Done,
            Ok(Err(m)) => r.1 matches DropAction::Finish(Ok(e)) && e.message@ == m && e.removed is None
                && r.0.stage == DropStage::Done,
            Ok(Ok(o)) => if o == TableOrigin::Internal && !has_root {
                r.1 matches DropAction::Finish(Err(t)) && t@ == no_data_folder_text(name@) && r.0.stage == DropStage::Done
            } else {
                r.0.stage == DropStage::Listing && r.0.origin == o && r.1 is ListDependents && r.0.dependents@.len() == 0
            },
        },
{
    let flow = |origin: TableOrigin, stage: DropStage| -> (f: DropFlow)
        ensures
            f.name@ == name@,
            f.origin == origin,
            f.stage == stage,
            f.dependents@.len() == 0,
        { DropFlow { name: crate::text::owned(name), origin, stage, dependents: Vec::new(), failure: String::new() } };
    match drop_step(name, existing, internal, if_exists) {
        Err(m) => (flow(TableOrigin::External, DropStage::Done), DropAction::Finish(Err(m))),
        Ok(DropStep::Nothing(m)) => (
            flow(TableOrigin::External, DropStage::Done),
            DropAction::Finish(Ok(DropEnd { message: m, removed: None })),
        ),
        Ok(DropStep::Drop(o)) => {
            if o == TableOrigin::Internal && !has_root {
                let mut v: Vec<char> = Vec::new();
                append_str(&mut v, "Table '");
                append_str(&mut v, name);
                append_str(&mut v, "' has no project folder to delete its data from");
                let t = string_of(&v);
                assert(t@ =~= no_data_folder_text(name@));
                (flow(o, DropStage::Done), DropAction::Finish(Err(t)))
            } else {
                (flow(o, DropStage::Listing), DropAction::ListDependents)
            }
        },
    }
}

impl DropFlow {
    /// The next step of the drop, given what the host reports. The provider goes before the
    /// data, so no new plan can reach files about to go; and a discard that fails puts the
    /// provider back before the failure is reported, so a failed drop has not half-happened.
    pub fn step(&mut self, event: DropEvent) -> (a: DropAction)
        requires
            drop_expects(old(self).stage, event),
        ensures
            final(self).name == old(self).name,
            final(self).origin == old(self).origin,
            match event {
                DropEvent::Dependents(d) => a is Deregister && final(self).stage == DropStage::Deregistering
                    && string_views(final(self).dependents@) == string_views(d@),
                DropEvent::Deregistered { result: Err(e), .. } => a matches DropAction::Finish(Err(t)) && t@ == e@
                    && final(self).stage == DropStage::Done,
                DropEvent::Deregistered { result: Ok(_), data_present } => if old(self).origin
                    == TableOrigin::Internal && data_present {
                    a is Discard && final(self).stage == DropStage::Discarding && final(self).dependents
                        == old(self).dependents
                } else {
                    final(self).stage == DropStage::Done && drop_done(a, *old(self))
                },
                DropEvent::Discarded(Ok(_)) => final(self).stage == DropStage::Done && drop_done(a, *old(self)),
                DropEvent::Discarded(Err(e)) => a is Reregister && final(self).stage == DropStage::Reregistering
                    && final(self).failure@ == e@,
                DropEvent::Reregistered => a matches DropAction::Finish(Err(t)) && t@ == old(self).failure@
                    && final(self).stage == DropStage::Done,
            },
    {
        match event {
            DropEvent::Dependents(d) => {
                self.dependents = d;
                self.stage = DropStage::Deregistering;
                DropAction::Deregister
            },
            DropEvent::Deregistered { result: Err(e), .. } => {
                self.stage = DropStage::Done;
                DropAction::Finish(Err(e))
            },
            DropEvent::Deregistered { result: Ok(_), data_present } => {
                if self.origin == TableOrigin::Internal && data_present {
                    self.stage = DropStage::Discarding;
                    DropAction::Discard
                } else {
                    self.stage = DropStage::Done;
                    self.finish()
                }
            },
            DropEvent::Discarded(Ok(_)) => {
                self.stage = DropStage::Done;
                self.finish()
            },
            DropEvent::Discarded(Err(e)) => {
                self.failure = e;
                self.stage = DropStage::Reregistering;
                DropAction::Reregister
            },
            DropEvent::Reregistered => {
                self.stage = DropStage::Done;
                DropAction::Finish(Err(crate::text::owned(self.failure.as_str())))
            },
        }
    }

    fn finish(&self) -> (a: DropAction)
        ensures
            drop_done(a, *self),
    {
        let message = drop_report(self.name.as_str(), self.origin, self.dependents.as_slice());
        assert(self.dependents@.map_values(|d: String| d@) == string_views(self.dependents@));
        DropAction::Finish(Ok(DropEnd { message, removed: Some(copy_names(&self.dependents)) }))
    }
}

// ---- a CREATE TABLE, step by step ---------------------------------------------------------

/// Where a create stands: what it waits to hear from the host.
#[derive(Clone, Copy, PartialEq, Eq, Debug, Structural)]
pub enum CreateStage {
    /// The query's rows are being written into the table's directory.
    Spooling,
    /// The written table is being registered.
    Registering,
    /// The directory of a table that will never be named is being removed.
    Removing,
    /// Nothing more: the create has answered.
    Done,
}

/// What the host is asked to do next.
pub enum CreateAction {
    /// Write the query's rows into the table's directory.
    Spool,
    /// Register the written table.
    Register,
    /// Remove the table's directory: the registration of a new table failed, so nothing
    /// will ever name it.
    RemoveDir,
    /// Answer the statement, or why not.
    Finish(Result<CreateEnd, String>),
}

/// What the host hands back after an action.
pub enum CreateEvent {
    /// The rows written, or why not.
    Spooled(Result<usize, String>),
    /// The table is registered, or why not.
    Registered(Result<(), String>),
    /// The directory is gone.
    DirRemoved,
}

/// A `CREATE TABLE` under way: the table, whether it replaces one, where it stands, the rows
/// written, and the failure it will report once the directory is gone.
pub struct CreateFlow {
    pub name: String,
    pub replacing: bool,
    pub stage: CreateStage,
    pub rows: usize,
    pub failure: String,
}

/// The event a create at `stage` waits for.
pub open spec fn create_expects(stage: CreateStage, event: CreateEvent) -> bool {
    match event {
        CreateEvent::Spooled(_) => stage == CreateStage::Spooling,
        CreateEvent::Registered(_) => stage == CreateStage::Registering,
        CreateEvent::DirRemoved => stage == CreateStage::Removing,
    }
}

/// What the catalogue stores for a table: its name, format, the connection its files are
/// read through, its sources, its partition columns and where its data came from.
pub struct TableDef {
    pub name: String,
    pub format: crate::external::SourceFormat,
    pub connection: Option<String>,
    pub sources: Vec<String>,
    pub partition_cols: Vec<(String, String)>,
    pub origin: TableOrigin,
}

/// The project-relative source of an internal table: its directory under `.strata/tables/`.
pub open spec fn internal_source_text(name: Seq<char>) -> Seq<char> {
    ".strata/tables/"@ + table_slug_text(name) + "/"@
}

/// The definition of the internal table `name`: Arrow files the engine wrote under
/// `.strata/tables/`, read through no connection, with no partition columns.
pub fn internal_table_def(name: &str) -> (r: TableDef)
    ensures
        r.name@ == name@,
        r.format == crate::external::SourceFormat::Arrow,
        r.connection is None,
        r.sources@.len() == 1,
        r.sources@[0]@ == internal_source_text(name@),
        r.partition_cols@.len() == 0,
        r.origin == TableOrigin::Internal,
{
    let mut v: Vec<char> = Vec::new();
    append_str(&mut v, ".strata/tables/");
    let slug = table_slug(name);
    append_str(&mut v, slug.as_str());
    append_str(&mut v, "/");
    let source = string_of(&v);
    let mut sources: Vec<String> = Vec::new();
    sources.push(source);
    TableDef {
        name: crate::text::owned(name),
        format: crate::external::SourceFormat::Arrow,
        connection: None,
        sources,
        partition_cols: Vec::new(),
        origin: TableOrigin::Internal,
    }
}

/// What a finished create answers with: its report, and for a written table the rows written
/// and the definition the catalogue takes.
pub struct CreateEnd {
    pub message: String,
    pub count: Option<u64>,
    pub def: Option<TableDef>,
}

/// The refusal of a clause the planner accepts and never enforces, [`unenforced_clause`].
pub open spec fn unenforced_text(has_constraints: bool, has_defaults: bool) -> Option<Seq<char>> {
    if has_constraints {
        Some("Table constraints are not supported"@)
    } else if has_defaults {
        Some("Column defaults are not supported"@)
    } else {
        None
    }
}

fn finished(name: String, m: String) -> (r: (CreateFlow, CreateAction))
    ensures
        r.0.name == name,
        r.0.stage == CreateStage::Done,
        r.1 matches CreateAction::Finish(Err(t)) && t == m,
{
    (CreateFlow { name, replacing: false, stage: CreateStage::Done, rows: 0, failure: String::new() }, CreateAction::Finish(Err(m)))
}

/// Begin a `CREATE TABLE`. Every refusal answers before anything is written, in order: a
/// clause the planner does not enforce, a target name outside the one schema (`name`, as its
/// resolution came back), two columns with one identity, then what the engine holds under
/// the name ([`create_step_spec`]); `IF NOT EXISTS` over a taken name answers too. A create
/// goes on to spool its rows.
pub fn start_create(
    has_constraints: bool,
    has_defaults: bool,
    name: Result<String, String>,
    columns: &[String],
    existing: Option<Existing>,
    if_not_exists: bool,
    or_replace: bool,
) -> (r: (CreateFlow, CreateAction))
    ensures
        if has_constraints || has_defaults {
            r.1 matches CreateAction::Finish(Err(t)) && unenforced_text(has_constraints, has_defaults) == Some(t@)
                && r.0.stage == CreateStage::Done
        } else {
            match name {
                Err(e) => r.1 matches CreateAction::Finish(Err(t)) && t@ == e@ && r.0.stage == CreateStage::Done,
                Ok(n) => if !columns_distinct(columns@) {
                    r.1 matches CreateAction::Finish(Err(t)) && first_duplicate_refusal(columns@, t@)
                        && r.0.stage == CreateStage::Done
                } else {
                    r.0.name@ == n@ && match create_step_spec(n@, existing, if_not_exists, or_replace) {
                        Err(m) => r.1 matches CreateAction::Finish(Err(t)) && t@ == m && r.0.stage == CreateStage::Done,
                        Ok((_, Some(m))) => r.1 matches CreateAction::Finish(Ok(e)) && e.message@ == m && e.count is None
                            && e.def is None && r.0.stage == CreateStage::Done,
                        Ok((replacing, None)) => r.1 is Spool && r.0.stage == CreateStage::Spooling
                            && r.0.replacing == replacing,
                    }
                },
            }
        },
{
    match unenforced_clause(has_constraints, has_defaults) {
        Some(m) => return finished(String::new(), crate::text::owned(m)),
        None => {},
    }
    let name = match name {
        Err(e) => return finished(String::new(), e),
        Ok(n) => n,
    };
    match unique_columns(columns) {
        Err(m) => return finished(name, m),
        Ok(()) => {},
    }
    match create_step(name.as_str(), existing, if_not_exists, or_replace) {
        Err(m) => finished(name, m),
        Ok(CreateStep::Nothing(m)) => (
            CreateFlow { name, replacing: false, stage: CreateStage::Done, rows: 0, failure: String::new() },
            CreateAction::Finish(Ok(CreateEnd { message: m, count: None, def: None })),
        ),
        Ok(CreateStep::Write { replacing }) => (
            CreateFlow { name, replacing, stage: CreateStage::Spooling, rows: 0, failure: String::new() },
            CreateAction::Spool,
        ),
    }
}

impl CreateFlow {
    /// The next step of the create, given what the host reports. A failed registration of a
    /// new table removes its directory before the failure is reported, since nothing will
    /// ever name it; that of a replacement keeps it, since the table already in the catalogue
    /// points at it.
    pub fn step(&mut self, event: CreateEvent) -> (a: CreateAction)
        requires
            create_expects(old(self).stage, event),
        ensures
            final(self).name == old(self).name,
            final(self).replacing == old(self).replacing,
            match event {
                CreateEvent::Spooled(Ok(n)) => a is Register && final(self).stage == CreateStage::Registering
                    && final(self).rows == n,
                CreateEvent::Spooled(Err(e)) => a matches CreateAction::Finish(Err(t)) && t@ == e@
                    && final(self).stage == CreateStage::Done,
                CreateEvent::Registered(Ok(_)) => a matches CreateAction::Finish(Ok(e)) && e.message@
                    == create_report_text(old(self).name@, old(self).replacing, old(self).rows as nat) && e.count
                    == Some(old(self).rows as u64) && (e.def matches Some(d) && d.name@ == old(self).name@ && d.format
                    == crate::external::SourceFormat::Arrow && d.connection is None && d.sources@.len() == 1
                    && d.sources@[0]@ == internal_source_text(old(self).name@) && d.partition_cols@.len() == 0
                    && d.origin == TableOrigin::Internal) && final(self).stage == CreateStage::Done,
                CreateEvent::Registered(Err(e)) => if old(self).replacing {
                    a matches CreateAction::Finish(Err(t)) && t@ == e@ && final(self).stage == CreateStage::Done
                } else {
                    a is RemoveDir && final(self).stage == CreateStage::Removing && final(self).failure@ == e@
                },
                CreateEvent::DirRemoved => a matches CreateAction::Finish(Err(t)) && t@ == old(self).failure@
                    && final(self).stage == CreateStage::Done,
            },
    {
        match event {
            CreateEvent::Spooled(Ok(n)) => {
                self.rows = n;
                self.stage = CreateStage::Registering;
                CreateAction::Register
            },
            CreateEvent::Spooled(Err(e)) => {
                self.stage = CreateStage::Done;
                CreateAction::Finish(Err(e))
            },
            CreateEvent::Registered(Ok(_)) => {
                self.stage = CreateStage::Done;
                CreateAction::Finish(
                    Ok(
                        CreateEnd {
                            message: create_report(self.name.as_str(), self.replacing, self.rows),
                            count: Some(self.rows as u64),
                            def: Some(internal_table_def(self.name.as_str())),
                        },
                    ),
                )
            },
            CreateEvent::Registered(Err(e)) => {
                if self.replacing {
                    self.stage = CreateStage::Done;
                    CreateAction::Finish(Err(e))
                } else {
                    self.failure = e;
                    self.stage = CreateStage::Removing;
                    CreateAction::RemoveDir
                }
            },
            CreateEvent::DirRemoved => {
                self.stage = CreateStage::Done;
                CreateAction::Finish(Err(crate::text::owned(self.failure.as_str())))
            },
        }
    }
}

// ---- the INSERT gate ------------------------------------------------------------------------

/// Why an `INSERT` is refused before anything is written.
#[derive(Clone, Copy, PartialEq, Eq, Debug, Structural)]
pub enum InsertRefusal {
    /// The target is a view or an external table: not a set of files the engine wrote.
    External,
    /// The write is not an append (`REPLACE INTO`, an overwrite), which the engine's own
    /// table files cannot take.
    Overwrite,
}

/// Whether an `INSERT` may go on: an internal table takes rows by appending, and nothing
/// else does; the target is judged before the kind of write.
pub fn insert_gate(internal: bool, append: bool) -> (r: Option<InsertRefusal>)
    ensures
        r == if !internal {
            Some(InsertRefusal::External)
        } else if !append {
            Some(InsertRefusal::Overwrite)
        } else {
            None::<InsertRefusal>
        },
{
    if !internal {
        Some(InsertRefusal::External)
    } else if !append {
        Some(InsertRefusal::Overwrite)
    } else {
        None
    }
}

/// What an `INSERT` that appended `rows` rows into `name` reports.
pub open spec fn insert_report_text(name: Seq<char>, rows: nat) -> Seq<char> {
    "Inserted "@ + plural_text(rows, "row"@) + " into '"@ + name + "'"@
}

/// What an `INSERT` answers with: its report, the rows it appended, and the table whose
/// files the scan driver has to read again (the row count is read from the files, never added
/// up from what a statement claimed).
pub struct InsertEnd {
    pub message: String,
    pub count: u64,
    pub rescan: String,
}

/// The answer of an `INSERT` that appended `rows` rows into `name`.
pub fn insert_outcome(name: &str, rows: usize) -> (r: InsertEnd)
    ensures
        r.message@ == insert_report_text(name@, rows as nat),
        r.count == rows as u64,
        r.rescan@ == name@,
{
    let mut v: Vec<char> = Vec::new();
    append_str(&mut v, "Inserted ");
    let p = plural(rows, "row");
    append_str(&mut v, p.as_str());
    append_str(&mut v, " into '");
    append_str(&mut v, name);
    append_str(&mut v, "'");
    let message = string_of(&v);
    assert(message@ =~= insert_report_text(name@, rows as nat));
    InsertEnd { message, count: rows as u64, rescan: crate::text::owned(name) }
}

} // verus!
