//! Catalog profiling: which outputs the one profiling aggregate over an entry computes, and
//! how its single result row decodes into per-column facts.
//!
//! The aggregate is read back **by position**: output `i` means what slot `i` says, so no
//! alias can collide with a column name. A column's null count is derived from its non-null
//! count and the row count rather than aggregated on its own.

use vstd::prelude::*;

use crate::text::{chars_of, decimal, push_decimal, same_chars, string_of};
use crate::util::{parse_u64, parse_u64_chars};

verus! {

/// A fact the column inspector can show.
#[derive(Clone, Copy, Debug, PartialEq, Eq, Structural)]
pub enum StatKey {
    Nulls,
    Distinct,
    Min,
    Max,
    Mean,
    Median,
}

/// The kind of values a column holds, as far as profiling cares.
#[derive(Clone, Copy, Debug, PartialEq, Eq, Structural)]
pub enum ColumnKind {
    Num,
    Ts,
    Str,
    Bool,
    Struct,
    List,
    Mapping,
}

/// One column of the entry being profiled.
pub struct ProfileColumn {
    pub name: String,
    pub kind: ColumnKind,
}

/// What one output of the profiling aggregate means.
pub enum Slot {
    /// The entry's row count.
    Rows,
    /// How many values of the column are not null.
    NonNull { name: String },
    /// One statistic of the column.
    Stat { name: String, key: StatKey },
}

/// The model of a [`Slot`].
pub enum SlotModel {
    Rows,
    NonNull(Seq<char>),
    Stat(Seq<char>, StatKey),
}

pub open spec fn slot_model(s: Slot) -> SlotModel {
    match s {
        Slot::Rows => SlotModel::Rows,
        Slot::NonNull { name } => SlotModel::NonNull(name@),
        Slot::Stat { name, key } => SlotModel::Stat(name@, key),
    }
}

pub open spec fn slot_models(v: Seq<Slot>) -> Seq<SlotModel> {
    v.map_values(|s: Slot| slot_model(s))
}

/// The statistics worth computing for a column of `kind`: a nested column gets only its
/// null count, and so does a boolean one.
pub open spec fn wanted(kind: ColumnKind) -> Seq<StatKey> {
    match kind {
        ColumnKind::Num => seq![StatKey::Distinct, StatKey::Min, StatKey::Max, StatKey::Mean, StatKey::Median],
        ColumnKind::Ts => seq![StatKey::Distinct, StatKey::Min, StatKey::Max],
        ColumnKind::Str => seq![StatKey::Distinct, StatKey::Min, StatKey::Max],
        _ => seq![],
    }
}

/// The slots one column contributes: its non-null count, then each wanted statistic.
pub open spec fn column_slots(name: Seq<char>, kind: ColumnKind) -> Seq<SlotModel> {
    seq![SlotModel::NonNull(name)] + wanted(kind).map_values(|k: StatKey| SlotModel::Stat(name, k))
}

/// All slots of the aggregate over `cols`: the row count first, then each column's in order.
pub open spec fn slots_for(cols: Seq<ProfileColumn>) -> Seq<SlotModel>
    decreases cols.len(),
{
    if cols.len() == 0 {
        seq![SlotModel::Rows]
    } else {
        slots_for(cols.drop_last()) + column_slots(cols.last().name@, cols.last().kind)
    }
}

fn wanted_keys(kind: ColumnKind) -> (r: Vec<StatKey>)
    ensures
        r@ == wanted(kind),
{
    match kind {
        ColumnKind::Num => vec![StatKey::Distinct, StatKey::Min, StatKey::Max, StatKey::Mean, StatKey::Median],
        ColumnKind::Ts => vec![StatKey::Distinct, StatKey::Min, StatKey::Max],
        ColumnKind::Str => vec![StatKey::Distinct, StatKey::Min, StatKey::Max],
        _ => Vec::new(),
    }
}

proof fn lemma_slot_models_push(v: Seq<Slot>, s: Slot)
    ensures
        slot_models(v.push(s)) == slot_models(v).push(slot_model(s)),
{
    assert(slot_models(v.push(s)) =~= slot_models(v).push(slot_model(s)));
}

/// The slots of the profiling aggregate over `columns`, [`slots_for`]: output `i` of the
/// aggregate the engine builds is what slot `i` names.
pub fn aggregates(columns: &[ProfileColumn]) -> (r: Vec<Slot>)
    ensures
        slot_models(r@) == slots_for(columns@),
{
    let mut out: Vec<Slot> = Vec::new();
    proof {
        lemma_slot_models_push(out@, Slot::Rows);
    }
    out.push(Slot::Rows);
    assert(columns@.take(0) =~= Seq::<ProfileColumn>::empty());
    assert(slot_models(out@) =~= slots_for(columns@.take(0)));
    for i in 0..columns.len()
        invariant
            slot_models(out@) == slots_for(columns@.take(i as int)),
    {
        let c = &columns[i];
        let ghost before = slot_models(out@);
        let ghost name = c.name@;
        let nn = Slot::NonNull { name: c.name.clone() };
        proof {
            lemma_slot_models_push(out@, nn);
        }
        out.push(nn);
        let wants = wanted_keys(c.kind);
        for j in 0..wants.len()
            invariant
                name == c.name@,
                wants@ == wanted(c.kind),
                slot_models(out@) == before + seq![SlotModel::NonNull(name)] + wants@.take(j as int).map_values(
                    |k: StatKey| SlotModel::Stat(name, k),
                ),
        {
            let s = Slot::Stat { name: c.name.clone(), key: wants[j] };
            proof {
                lemma_slot_models_push(out@, s);
                assert(wants@.take(j + 1).map_values(|k: StatKey| SlotModel::Stat(name, k)) =~= wants@.take(
                    j as int,
                ).map_values(|k: StatKey| SlotModel::Stat(name, k)).push(SlotModel::Stat(name, wants@[j as int])));
            }
            out.push(s);
        }
        proof {
            assert(wants@.take(wants@.len() as int) =~= wants@);
            assert(columns@.take(i + 1).drop_last() =~= columns@.take(i as int));
            assert(columns@.take(i + 1).last() == columns@[i as int]);
            assert(slot_models(out@) =~= slots_for(columns@.take(i + 1)));
        }
    }
    assert(columns@.take(columns@.len() as int) =~= columns@);
    out
}

// ---- decoding the result row --------------------------------------------------------------

/// One fact about a column, rendered as text.
pub struct Stat {
    pub key: StatKey,
    pub text: String,
    /// Whether the value is exact rather than estimated; a scan's facts always are.
    pub exact: bool,
}

/// The facts of one column that the scan had something to say about.
pub struct ColumnFacts {
    pub name: String,
    pub facts: Vec<Stat>,
}

/// The decoded profile: the entry's row count and, in column order, each column that has
/// at least one fact.
pub struct ProfileFacts {
    pub rows: u64,
    pub cols: Vec<ColumnFacts>,
}

pub open spec fn stat_model(s: Stat) -> (StatKey, Seq<char>, bool) {
    (s.key, s.text@, s.exact)
}

pub open spec fn stat_models(v: Seq<Stat>) -> Seq<(StatKey, Seq<char>, bool)> {
    v.map_values(|s: Stat| stat_model(s))
}

pub open spec fn column_facts_models(v: Seq<ColumnFacts>) -> Seq<(Seq<char>, Seq<(StatKey, Seq<char>, bool)>)> {
    v.map_values(|c: ColumnFacts| (c.name@, stat_models(c.facts@)))
}

/// The model of the result row: the rendered text of each cell, `None` where it is null.
pub open spec fn cell_models(v: Seq<Option<String>>) -> Seq<Option<Seq<char>>> {
    v.map_values(
        |c: Option<String>|
            match c {
                Some(t) => Some(t@),
                None => None,
            },
    )
}

/// The text of output `i`, `None` when it is null or the row has no such output.
pub open spec fn cell(cells: Seq<Option<Seq<char>>>, i: int) -> Option<Seq<char>> {
    if 0 <= i < cells.len() {
        cells[i]
    } else {
        None
    }
}

/// The row count read from the first `n` outputs: the last row-count output that is not
/// null, read as a `u64`, `0` where it does not read as one.
pub open spec fn rows_after(slots: Seq<SlotModel>, cells: Seq<Option<Seq<char>>>, n: nat) -> nat
    decreases n,
{
    if n == 0 {
        0
    } else {
        let i = n - 1;
        if slots[i] is Rows && cell(cells, i) is Some {
            match parse_u64(cell(cells, i)->0) {
                Some(v) => v,
                None => 0,
            }
        } else {
            rows_after(slots, cells, (n - 1) as nat)
        }
    }
}

/// The non-null count of `name` read from the first `n` outputs: the last of its non-null
/// outputs whose text reads as a `u64`.
pub open spec fn non_null_after(
    slots: Seq<SlotModel>,
    cells: Seq<Option<Seq<char>>>,
    name: Seq<char>,
    n: nat,
) -> Option<nat>
    decreases n,
{
    if n == 0 {
        None
    } else {
        let i = n - 1;
        if slots[i] == SlotModel::NonNull(name) && cell(cells, i) is Some && parse_u64(cell(cells, i)->0) is Some {
            parse_u64(cell(cells, i)->0)
        } else {
            non_null_after(slots, cells, name, (n - 1) as nat)
        }
    }
}

/// The statistics of `name` read from the first `n` outputs, in output order: each of its
/// statistic outputs that is not null, with its text.
pub open spec fn stats_after(
    slots: Seq<SlotModel>,
    cells: Seq<Option<Seq<char>>>,
    name: Seq<char>,
    n: nat,
) -> Seq<(StatKey, Seq<char>, bool)>
    decreases n,
{
    if n == 0 {
        seq![]
    } else {
        let i = n - 1;
        let earlier = stats_after(slots, cells, name, (n - 1) as nat);
        match slots[i] {
            SlotModel::Stat(m, k) => if m == name && cell(cells, i) is Some {
                earlier.push((k, cell(cells, i)->0, true))
            } else {
                earlier
            },
            _ => earlier,
        }
    }
}

/// Does a column before `j` carry the same name as column `j`?
pub open spec fn named_earlier(cols: Seq<ProfileColumn>, j: int) -> bool {
    exists|k: int| 0 <= k < j && #[trigger] cols[k].name@ == cols[j].name@
}

/// The facts of column `j`: its null count (rows less non-null, never below zero) when its
/// non-null count was read, then its statistics — which go to the first column of a name
/// only.
pub open spec fn facts_for(
    slots: Seq<SlotModel>,
    cells: Seq<Option<Seq<char>>>,
    cols: Seq<ProfileColumn>,
    j: int,
) -> Seq<(StatKey, Seq<char>, bool)> {
    let name = cols[j].name@;
    let rows = rows_after(slots, cells, slots.len());
    let nulls = match non_null_after(slots, cells, name, slots.len()) {
        Some(v) => seq![(StatKey::Nulls, decimal(if rows >= v { (rows - v) as nat } else { 0 }), true)],
        None => seq![],
    };
    nulls + if named_earlier(cols, j) {
        seq![]
    } else {
        stats_after(slots, cells, name, slots.len())
    }
}

/// The profile's columns among the first `m`: in column order, each with at least one fact.
pub open spec fn profile_cols(
    slots: Seq<SlotModel>,
    cells: Seq<Option<Seq<char>>>,
    cols: Seq<ProfileColumn>,
    m: nat,
) -> Seq<(Seq<char>, Seq<(StatKey, Seq<char>, bool)>)>
    decreases m,
{
    if m == 0 {
        seq![]
    } else {
        let j = m - 1;
        let earlier = profile_cols(slots, cells, cols, (m - 1) as nat);
        if facts_for(slots, cells, cols, j).len() > 0 {
            earlier.push((cols[j].name@, facts_for(slots, cells, cols, j)))
        } else {
            earlier
        }
    }
}

fn cell_text(cells: &[Option<String>], i: usize) -> (r: Option<Vec<char>>)
    ensures
        match cell(cell_models(cells@), i as int) {
            Some(t) => r matches Some(v) && v@ == t,
            None => r is None,
        },
{
    if i < cells.len() {
        match &cells[i] {
            Some(t) => Some(chars_of(t.as_str())),
            None => None,
        }
    } else {
        None
    }
}

fn rows_of(slots: &[Slot], cells: &[Option<String>]) -> (r: u64)
    ensures
        r == rows_after(slot_models(slots@), cell_models(cells@), slots@.len()),
{
    let ghost sm = slot_models(slots@);
    let ghost cm = cell_models(cells@);
    let mut rows: u64 = 0;
    for i in 0..slots.len()
        invariant
            sm == slot_models(slots@),
            cm == cell_models(cells@),
            rows == rows_after(sm, cm, i as nat),
    {
        assert(sm[i as int] == slot_model(slots@[i as int]));
        if let Slot::Rows = &slots[i] {
            if let Some(t) = cell_text(cells, i) {
                rows = match parse_u64_chars(&t) {
                    Some(v) => v,
                    None => 0,
                };
            }
        }
    }
    rows
}

fn same_name(a: &String, b: &String) -> (r: bool)
    ensures
        r == (a@ == b@),
{
    let x = chars_of(a.as_str());
    let y = chars_of(b.as_str());
    same_chars(&x, &y)
}

fn non_null_of(slots: &[Slot], cells: &[Option<String>], name: &String) -> (r: Option<u64>)
    ensures
        match non_null_after(slot_models(slots@), cell_models(cells@), name@, slots@.len()) {
            Some(v) => v <= u64::MAX && r == Some(v as u64),
            None => r is None,
        },
{
    let ghost sm = slot_models(slots@);
    let ghost cm = cell_models(cells@);
    let mut found: Option<u64> = None;
    for i in 0..slots.len()
        invariant
            sm == slot_models(slots@),
            cm == cell_models(cells@),
            match non_null_after(sm, cm, name@, i as nat) {
                Some(v) => v <= u64::MAX && found == Some(v as u64),
                None => found is None,
            },
    {
        assert(sm[i as int] == slot_model(slots@[i as int]));
        if let Slot::NonNull { name: m } = &slots[i] {
            if same_name(m, name) {
                if let Some(t) = cell_text(cells, i) {
                    if let Some(v) = parse_u64_chars(&t) {
                        found = Some(v);
                    }
                }
            }
        }
    }
    found
}

proof fn lemma_stat_models_push(v: Seq<Stat>, s: Stat)
    ensures
        stat_models(v.push(s)) == stat_models(v).push(stat_model(s)),
{
    assert(stat_models(v.push(s)) =~= stat_models(v).push(stat_model(s)));
}

fn stats_of(slots: &[Slot], cells: &[Option<String>], name: &String) -> (r: Vec<Stat>)
    ensures
        stat_models(r@) == stats_after(slot_models(slots@), cell_models(cells@), name@, slots@.len()),
{
    let ghost sm = slot_models(slots@);
    let ghost cm = cell_models(cells@);
    let mut out: Vec<Stat> = Vec::new();
    assert(stat_models(out@) =~= Seq::<(StatKey, Seq<char>, bool)>::empty());
    for i in 0..slots.len()
        invariant
            sm == slot_models(slots@),
            cm == cell_models(cells@),
            stat_models(out@) == stats_after(sm, cm, name@, i as nat),
    {
        assert(sm[i as int] == slot_model(slots@[i as int]));
        if let Slot::Stat { name: m, key } = &slots[i] {
            if same_name(m, name) {
                if let Some(t) = cell_text(cells, i) {
                    let s = Stat { key: *key, text: string_of(&t), exact: true };
                    proof {
                        lemma_stat_models_push(out@, s);
                    }
                    out.push(s);
                }
            }
        }
    }
    out
}

fn named_before(columns: &[ProfileColumn], j: usize) -> (r: bool)
    requires
        j < columns@.len(),
    ensures
        r == named_earlier(columns@, j as int),
{
    for k in 0..j
        invariant
            j < columns@.len(),
            forall|q: int| 0 <= q < k ==> #[trigger] columns@[q].name@ != columns@[j as int].name@,
    {
        if same_name(&columns[k].name, &columns[j].name) {
            return true;
        }
    }
    false
}

fn facts_of(slots: &[Slot], cells: &[Option<String>], columns: &[ProfileColumn], j: usize, rows: u64) -> (r: Vec<Stat>)
    requires
        j < columns@.len(),
        rows == rows_after(slot_models(slots@), cell_models(cells@), slots@.len()),
    ensures
        stat_models(r@) == facts_for(slot_models(slots@), cell_models(cells@), columns@, j as int),
{
    let name = &columns[j].name;
    let mut facts: Vec<Stat> = Vec::new();
    match non_null_of(slots, cells, name) {
        Some(n) => {
            let mut t: Vec<char> = Vec::new();
            let nulls: u64 = if rows >= n { rows - n } else { 0 };
            push_decimal(&mut t, nulls);
            let s = Stat { key: StatKey::Nulls, text: string_of(&t), exact: true };
            facts.push(s);
            assert(t@ =~= decimal(nulls as nat));
            assert(stat_models(facts@) =~= seq![stat_model(s)]);
        },
        None => {
            assert(stat_models(facts@) =~= Seq::<(StatKey, Seq<char>, bool)>::empty());
        },
    }
    let ghost nulls = stat_models(facts@);
    proof {
        let rows_n = rows_after(slot_models(slots@), cell_models(cells@), slots@.len());
        let want = match non_null_after(slot_models(slots@), cell_models(cells@), name@, slots@.len()) {
            Some(v) => seq![(StatKey::Nulls, decimal(if rows_n >= v { (rows_n - v) as nat } else { 0 }), true)],
            None => seq![],
        };
        assert(nulls =~= want);
    }
    let earlier = named_before(columns, j);
    if !earlier {
        let stats = stats_of(slots, cells, name);
        let ghost sv = stat_models(stats@);
        let mut i: usize = 0;
        while i < stats.len()
            invariant
                i <= stats@.len(),
                sv == stat_models(stats@),
                stat_models(facts@) == nulls + sv.take(i as int),
            decreases stats@.len() - i,
        {
            let s = Stat { key: stats[i].key, text: stats[i].text.clone(), exact: stats[i].exact };
            proof {
                lemma_stat_models_push(facts@, s);
                assert(sv.take(i + 1) =~= sv.take(i as int).push(stat_model(stats@[i as int])));
            }
            facts.push(s);
            i = i + 1;
        }
        assert(sv.take(sv.len() as int) =~= sv);
    }
    proof {
        let fm = facts_for(slot_models(slots@), cell_models(cells@), columns@, j as int);
        assert(stat_models(facts@) =~= fm);
    }
    facts
}

proof fn lemma_column_facts_push(v: Seq<ColumnFacts>, c: ColumnFacts)
    ensures
        column_facts_models(v.push(c)) == column_facts_models(v).push((c.name@, stat_models(c.facts@))),
{
    assert(column_facts_models(v.push(c)) =~= column_facts_models(v).push((c.name@, stat_models(c.facts@))));
}

/// Decodes the profiling aggregate's result into per-column facts.
///
/// `row` is the aggregate's one result row, each output rendered as text and `None` where it
/// is null; `None` for the row means the aggregate returned none, which is refused. A null
/// output says nothing and becomes no fact. The row count is [`rows_after`], the columns
/// [`profile_cols`] over `columns` in order.
pub fn decode(slots: &[Slot], row: Option<&[Option<String>]>, columns: &[ProfileColumn]) -> (r: Result<ProfileFacts, String>)
    ensures
        match row {
            None => r matches Err(e) && e@ == "profile returned no rows"@,
            Some(cells) => r matches Ok(p) && p.rows == rows_after(slot_models(slots@), cell_models(cells@), slots@.len())
                && column_facts_models(p.cols@) == profile_cols(
                slot_models(slots@),
                cell_models(cells@),
                columns@,
                columns@.len(),
            ),
        },
{
    let cells = match row {
        None => return Err(crate::text::owned("profile returned no rows")),
        Some(c) => c,
    };
    let rows = rows_of(slots, cells);
    let mut cols: Vec<ColumnFacts> = Vec::new();
    assert(column_facts_models(cols@) =~= profile_cols(slot_models(slots@), cell_models(cells@), columns@, 0));
    for j in 0..columns.len()
        invariant
            rows == rows_after(slot_models(slots@), cell_models(cells@), slots@.len()),
            column_facts_models(cols@) == profile_cols(slot_models(slots@), cell_models(cells@), columns@, j as nat),
    {
        let facts = facts_of(slots, cells, columns, j, rows);
        if facts.len() > 0 {
            let c = ColumnFacts { name: columns[j].name.clone(), facts };
            proof {
                lemma_column_facts_push(cols@, c);
            }
            cols.push(c);
        }
    }
    Ok(ProfileFacts { rows, cols })
}

// ---- facts from a source's own footers -----------------------------------------------------

/// The footer facts of one column: its null count unless it equals the row count (which is
/// also what a source with no statistics for the column reports, so it says nothing), then
/// its minimum and maximum as rendered, each only where the footer has one.
pub open spec fn footer_facts(
    rows: Option<u64>,
    null_count: Option<u64>,
    min: Option<(Seq<char>, bool)>,
    max: Option<(Seq<char>, bool)>,
) -> Seq<(StatKey, Seq<char>, bool)> {
    let nulls = match null_count {
        Some(n) => if rows == Some(n) {
            seq![]
        } else {
            seq![(StatKey::Nulls, decimal(n as nat), true)]
        },
        None => seq![],
    };
    let lo = match min {
        Some(m) => seq![(StatKey::Min, m.0, m.1)],
        None => seq![],
    };
    let hi = match max {
        Some(m) => seq![(StatKey::Max, m.0, m.1)],
        None => seq![],
    };
    nulls + lo + hi
}

/// The model of a rendered statistic and its exactness.
pub open spec fn rendered(v: Option<(String, bool)>) -> Option<(Seq<char>, bool)> {
    match v {
        Some(m) => Some((m.0@, m.1)),
        None => None,
    }
}

/// [`footer_facts`] for one column, from the row count and the column's footer statistics
/// (each rendered value with whether it is exact).
pub fn footer_stats(
    rows: Option<u64>,
    null_count: Option<u64>,
    min: Option<(String, bool)>,
    max: Option<(String, bool)>,
) -> (r: Vec<Stat>)
    ensures
        stat_models(r@) == footer_facts(rows, null_count, rendered(min), rendered(max)),
{
    let ghost lo_m = rendered(min);
    let ghost hi_m = rendered(max);
    let mut out: Vec<Stat> = Vec::new();
    assert(stat_models(out@) =~= Seq::<(StatKey, Seq<char>, bool)>::empty());
    match null_count {
        Some(n) => {
            let same = match rows {
                Some(k) => k == n,
                None => false,
            };
            if !same {
                let mut t: Vec<char> = Vec::new();
                push_decimal(&mut t, n);
                let st = Stat { key: StatKey::Nulls, text: string_of(&t), exact: true };
                proof {
                    lemma_stat_models_push(out@, st);
                    assert(t@ =~= decimal(n as nat));
                }
                out.push(st);
            }
        },
        None => {},
    }
    let ghost after_nulls = stat_models(out@);
    match min {
        Some((text, exact)) => {
            let st = Stat { key: StatKey::Min, text, exact };
            proof {
                lemma_stat_models_push(out@, st);
            }
            out.push(st);
        },
        None => {},
    }
    let ghost after_min = stat_models(out@);
    match max {
        Some((text, exact)) => {
            let st = Stat { key: StatKey::Max, text, exact };
            proof {
                lemma_stat_models_push(out@, st);
            }
            out.push(st);
        },
        None => {},
    }
    proof {
        let f = footer_facts(rows, null_count, lo_m, hi_m);
        assert(stat_models(out@) =~= f);
    }
    out
}

/// Values that can be ordered: numbers, timestamps and text.
pub open spec fn orderable(kind: ColumnKind) -> bool {
    kind == ColumnKind::Num || kind == ColumnKind::Ts || kind == ColumnKind::Str
}

/// **Every orderable column gets its range**: a column of numbers, timestamps or text is
/// profiled for its distinct count, minimum and maximum, in that order, and only numbers add
/// a mean and a median; any other column gets only its non-null count. No statistic is asked
/// for twice, and the null count is never a slot of its own.
pub proof fn law_wanted_statistics(kind: ColumnKind)
    ensures
        wanted(kind).contains(StatKey::Distinct) <==> orderable(kind),
        wanted(kind).contains(StatKey::Min) <==> orderable(kind),
        wanted(kind).contains(StatKey::Max) <==> orderable(kind),
        wanted(kind).contains(StatKey::Mean) <==> kind == ColumnKind::Num,
        wanted(kind).contains(StatKey::Median) <==> kind == ColumnKind::Num,
        !wanted(kind).contains(StatKey::Nulls),
        orderable(kind) ==> wanted(kind).take(3) == seq![StatKey::Distinct, StatKey::Min, StatKey::Max],
        forall|i: int, j: int| 0 <= i < j < wanted(kind).len() ==> wanted(kind)[i] != wanted(kind)[j],
{
    let w = wanted(kind);
    if orderable(kind) {
        assert(w[0] == StatKey::Distinct && w[1] == StatKey::Min && w[2] == StatKey::Max);
        assert(w.take(3) =~= seq![StatKey::Distinct, StatKey::Min, StatKey::Max]);
    }
    if kind == ColumnKind::Num {
        assert(w[3] == StatKey::Mean && w[4] == StatKey::Median);
    }
}

/// **A column's slots follow its kind**: its non-null count comes first, then one slot per
/// wanted statistic, each naming the column; so an orderable column always has a minimum and
/// a maximum slot.
pub proof fn law_column_slots(name: Seq<char>, kind: ColumnKind)
    ensures
        column_slots(name, kind)[0] == SlotModel::NonNull(name),
        column_slots(name, kind).len() == 1 + wanted(kind).len(),
        orderable(kind) ==> column_slots(name, kind).contains(SlotModel::Stat(name, StatKey::Min))
            && column_slots(name, kind).contains(SlotModel::Stat(name, StatKey::Max)),
{
    law_wanted_statistics(kind);
    let c = column_slots(name, kind);
    if orderable(kind) {
        assert(c[2] == SlotModel::Stat(name, StatKey::Min));
        assert(c[3] == SlotModel::Stat(name, StatKey::Max));
    }
}

/// **The aggregate measures every column**: its first slot is the row count, and each
/// column has its non-null count and, when orderable, its minimum and maximum.
pub proof fn law_aggregate_covers_columns(cols: Seq<ProfileColumn>, i: int)
    requires
        0 <= i < cols.len(),
    ensures
        slots_for(cols)[0] == SlotModel::Rows,
        slots_for(cols).contains(SlotModel::NonNull(cols[i].name@)),
        orderable(cols[i].kind) ==> slots_for(cols).contains(SlotModel::Stat(cols[i].name@, StatKey::Min))
            && slots_for(cols).contains(SlotModel::Stat(cols[i].name@, StatKey::Max)),
    decreases cols.len(),
{
    lemma_slots_start(cols);
    let front = slots_for(cols.drop_last());
    let last = column_slots(cols.last().name@, cols.last().kind);
    assert(slots_for(cols) == front + last);
    if i == cols.len() - 1 {
        law_column_slots(cols.last().name@, cols.last().kind);
        assert((front + last)[front.len() as int] == last[0]);
        if orderable(cols[i].kind) {
            assert((front + last)[front.len() as int + 2] == last[2]);
            assert((front + last)[front.len() as int + 3] == last[3]);
        }
    } else {
        law_aggregate_covers_columns(cols.drop_last(), i);
        assert(cols.drop_last()[i] == cols[i]);
        let j = choose|j: int| 0 <= j < front.len() && front[j] == SlotModel::NonNull(cols[i].name@);
        assert((front + last)[j] == front[j]);
        if orderable(cols[i].kind) {
            let a = choose|a: int| 0 <= a < front.len() && front[a] == SlotModel::Stat(cols[i].name@, StatKey::Min);
            let b = choose|b: int| 0 <= b < front.len() && front[b] == SlotModel::Stat(cols[i].name@, StatKey::Max);
            assert((front + last)[a] == front[a]);
            assert((front + last)[b] == front[b]);
        }
    }
}

proof fn lemma_slots_start(cols: Seq<ProfileColumn>)
    ensures
        slots_for(cols).len() >= 1,
        slots_for(cols)[0] == SlotModel::Rows,
    decreases cols.len(),
{
    if cols.len() > 0 {
        lemma_slots_start(cols.drop_last());
    }
}

} // verus!
