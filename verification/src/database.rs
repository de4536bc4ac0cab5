//! The database: named tables, constants, and which columns are calculated.
//!
//! Evaluating SQLScript expressions is not part of this module; the
//! operations here take the values that evaluation produced and do the
//! bookkeeping that the queries call for.
use vstd::prelude::*;
use std::rc::Rc;
use crate::column::Column;
use crate::env::{
    Environment,
    binding_view,
    names_of,
    pushed_all,
    rc_clone,
    scope_lookup,
    first_binding,
    lemma_first_binding_at,
    lemma_first_binding_bound,
    lemma_first_binding_push,
    lemma_pushed_all_empty,
};
use crate::table::{
    Table,
    has_name,
    first_index_of,
    col_type,
    cell,
    cell_reads_as,
    cell_reads_as_cell,
    accepts,
    supports,
    unsupported_msg,
    type_mismatch_msg,
    all_accepted,
    first_rejected,
    appended_upto,
    columns_appended,
};
use crate::column::row_limit;
use crate::parser::reversed;
use crate::types::{ColType, CompressType, Expr, Val, ColList, cols_view};

verus! {

/// What a query gives back.
pub enum QueryResult {
    /// A table (the answer to a `SELECT`).
    Table(Table),
    /// A value (an aggregate, a computation, or a script's result).
    Value(Rc<Val>),
    /// What went wrong.
    Error(String),
    /// What was done.
    Success(String),
    /// `EXIT`.
    Exit,
}

/// The names of a list of strings, as text.
pub open spec fn texts(v: Seq<String>) -> Seq<Seq<char>> {
    v.map_values(|s: String| s@)
}

/// The strategy a column is created with: the one given, else `none`.
pub open spec fn strategy_of(c: Option<CompressType>) -> CompressType {
    match c {
        Some(x) => x,
        None => CompressType::Uncompressed,
    }
}

/// The names of a schema's columns.
pub open spec fn schema_names(schema: Seq<(Seq<char>, ColType, Option<CompressType>)>) -> Seq<Seq<char>> {
    schema.map_values(|c: (Seq<char>, ColType, Option<CompressType>)| c.0)
}

/// Column `k` of a schema can be created after those before it: its name is
/// new among them and its type supports its strategy.
pub open spec fn column_ok(schema: Seq<(Seq<char>, ColType, Option<CompressType>)>, k: int) -> bool {
    &&& !has_name(schema_names(schema).take(k), schema[k].0)
    &&& supports(schema[k].1, strategy_of(schema[k].2))
}

/// Every column of the schema can be created.
pub open spec fn schema_ok(schema: Seq<(Seq<char>, ColType, Option<CompressType>)>) -> bool {
    forall|k: int| 0 <= k < schema.len() ==> column_ok(schema, k)
}

/// Column `k` is the first of the schema that cannot be created.
pub open spec fn first_bad_column(schema: Seq<(Seq<char>, ColType, Option<CompressType>)>, k: int) -> bool {
    &&& 0 <= k < schema.len()
    &&& !column_ok(schema, k)
    &&& forall|j: int| 0 <= j < k ==> column_ok(schema, j)
}

/// Why column `k` of the schema cannot be created.
pub open spec fn column_error(schema: Seq<(Seq<char>, ColType, Option<CompressType>)>, k: int) -> Seq<char> {
    if has_name(schema_names(schema).take(k), schema[k].0) {
        "Duplicate column "@ + schema[k].0
    } else {
        unsupported_msg(schema[k].1, strategy_of(schema[k].2))
    }
}

/// A table holds, in order, the first `n` columns of the schema with their
/// types, and nothing else: no row, aggregate or computation.
pub open spec fn holds_columns(t: Table, schema: Seq<(Seq<char>, ColType, Option<CompressType>)>, n: int) -> bool {
    &&& t.header_names() == schema_names(schema).take(n)
    &&& t.columns().len() == n
    &&& forall|c: int| 0 <= c < n ==> col_type(#[trigger] t.columns()[c]) == schema[c].1
    &&& t.row_count() == 0
    &&& t.aggregate_values_view() == Seq::<(Seq<char>, Val)>::empty()
    &&& t.computation_values_view() == Seq::<(Seq<char>, Val)>::empty()
}

/// The strategies of the first `n` columns of a schema.
pub open spec fn schema_strategies(schema: Seq<(Seq<char>, ColType, Option<CompressType>)>, n: int) -> Seq<CompressType> {
    schema.take(n).map_values(|c: (Seq<char>, ColType, Option<CompressType>)| strategy_of(c.2))
}

/// How many of the schema's columns a table holds once creation stopped at
/// column `k`: a column whose strategy its type does not support is kept,
/// stored without compression.
pub open spec fn kept_columns(schema: Seq<(Seq<char>, ColType, Option<CompressType>)>, k: int) -> int {
    if has_name(schema_names(schema).take(k), schema[k].0) {
        k
    } else {
        k + 1
    }
}

/// A table holds, in order, the first `n` columns of the schema, with their
/// types and strategies, and nothing else: no row, aggregate or computation.
pub open spec fn holds_schema(t: Table, schema: Seq<(Seq<char>, ColType, Option<CompressType>)>, n: int) -> bool {
    &&& t.header_names() == schema_names(schema).take(n)
    &&& t.columns().len() == n
    &&& forall|c: int| 0 <= c < n ==> col_type(#[trigger] t.columns()[c]) == schema[c].1
    &&& t.strategies() == schema.take(n).map_values(
        |c: (Seq<char>, ColType, Option<CompressType>)| strategy_of(c.2),
    )
    &&& t.row_count() == 0
    &&& t.aggregate_values_view() == Seq::<(Seq<char>, Val)>::empty()
    &&& t.computation_values_view() == Seq::<(Seq<char>, Val)>::empty()
}

/// `t1` is `t0` with the row `data` added: each value appended to its
/// column, one more row; names, strategies and column types as they were.
pub open spec fn row_appended(t0: Table, t1: Table, data: Seq<Val>) -> bool {
    &&& t1.row_count() == t0.row_count() + 1
    &&& columns_appended(t0, t1, data, data.len() as int)
}

/// The entries of `named`, in order, now holding `vals`.
pub open spec fn with_values(named: Seq<(Seq<char>, Val)>, vals: Seq<Val>) -> Seq<(Seq<char>, Val)> {
    Seq::new(vals.len(), |i: int| (named[i].0, vals[i]))
}

/// What a row must be for a table to take it: one value per column, each
/// null or of its column's type.
pub open spec fn row_fits(t: Table, data: Seq<Val>) -> bool {
    data.len() == t.columns().len() && all_accepted(t.columns(), data)
}

/// Why table `t` refuses the row `data` (which it does not take), and what
/// it becomes, `t1`: a row of the wrong length changes nothing; otherwise
/// the values before the first that its column cannot hold have been
/// appended to their columns, and the row count is unchanged.
pub open spec fn row_refusal(t: Table, t1: Table, data: Seq<Val>, e: Seq<char>) -> bool {
    if data.len() != t.columns().len() {
        e == "Number of items inserted does not match number of fields"@ && t1 == t
    } else {
        exists|k: int| #[trigger] first_rejected(t.columns(), data, k) && e == type_mismatch_msg(col_type(t.columns()[k]))
            && appended_upto(t, t1, data, k) && t1.row_count() == t.row_count()
    }
}

/// The column of table `t` called `name` (the first one of that name).
pub open spec fn column_named(t: Table, name: Seq<char>) -> Column {
    t.columns()[choose|i: int| first_index_of(t.header_names(), name, i)]
}

/// Field `k` of a projection can be added after those before it: `t` has a
/// column of that name and the field does not repeat an earlier one.
pub open spec fn field_ok(t: Table, fields: Seq<Seq<char>>, k: int) -> bool {
    has_name(t.header_names(), fields[k]) && !has_name(fields.take(k), fields[k])
}

/// Every field of the projection can be added.
pub open spec fn fields_ok(t: Table, fields: Seq<Seq<char>>) -> bool {
    forall|k: int| 0 <= k < fields.len() ==> field_ok(t, fields, k)
}

/// Field `k` is the first of the projection that cannot be added.
pub open spec fn first_bad_field(t: Table, fields: Seq<Seq<char>>, k: int) -> bool {
    &&& 0 <= k < fields.len()
    &&& !field_ok(t, fields, k)
    &&& forall|j: int| 0 <= j < k ==> field_ok(t, fields, j)
}

/// Why field `k` of the projection cannot be added.
pub open spec fn field_error(t: Table, fields: Seq<Seq<char>>, k: int) -> Seq<char> {
    if !has_name(t.header_names(), fields[k]) {
        "Invalid column name "@ + fields[k]
    } else {
        "Duplicate column "@ + fields[k]
    }
}

/// How many rows a result keeps out of `n` under `limit`.
pub open spec fn taken(n: int, limit: Option<usize>) -> int {
    match limit {
        Some(x) => if x < n {
            x as int
        } else {
            n
        },
        None => n,
    }
}

/// Every value of `row` fits the column type at its place.
pub open spec fn fits_types(types: Seq<ColType>, row: Seq<Val>) -> bool {
    &&& row.len() == types.len()
    &&& forall|c: int| 0 <= c < types.len() ==> accepts(types[c], #[trigger] row[c])
}

/// Why a row with column types `types` refuses `row`.
pub open spec fn types_refusal(types: Seq<ColType>, row: Seq<Val>, e: Seq<char>) -> bool {
    if row.len() != types.len() {
        e == "Number of items inserted does not match number of fields"@
    } else {
        exists|c: int| 0 <= c < types.len() && !accepts(types[c], #[trigger] row[c])
            && (forall|j: int| 0 <= j < c ==> accepts(types[j], #[trigger] row[j]))
            && e == type_mismatch_msg(types[c])
    }
}

/// The column types of a projection of `t` onto `fields`.
pub open spec fn projection_types(t: Table, fields: Seq<Seq<char>>) -> Seq<ColType> {
    Seq::new(fields.len(), |c: int| col_type(column_named(t, fields[c])))
}

/// The fields of a projection of `src`: those given, or all of its columns.
pub open spec fn field_names(fields: Option<Vec<String>>, src: Table) -> Seq<Seq<char>> {
    match fields {
        Some(v) => texts(v@),
        None => src.header_names(),
    }
}

/// What projecting `src` onto `names` with the rows `rows` under `limit`
/// gives: the first field that cannot be added, else the first kept row that
/// does not fit, is an error; otherwise a table of those fields and rows.
pub open spec fn projection_outcome(
    src: Table,
    names: Seq<Seq<char>>,
    rows: Seq<Vec<Val>>,
    limit: Option<usize>,
    r: QueryResult,
) -> bool {
    let types = projection_types(src, names);
    let n = taken(rows.len() as int, limit);
    &&& !fields_ok(src, names) ==> exists|k: int| #[trigger] first_bad_field(src, names, k)
        && (r matches QueryResult::Error(e) && e@ == field_error(src, names, k))
    &&& fields_ok(src, names) && (forall|i: int| 0 <= i < n ==> fits_types(types, #[trigger] rows[i]@)) ==> (r matches QueryResult::Table(t) && {
        &&& t.wf()
        &&& t.header_names() == names
        &&& t.row_count() == n
        &&& t.columns().len() == names.len()
        &&& forall|c: int| 0 <= c < names.len() ==> col_type(#[trigger] t.columns()[c]) == types[c]
        &&& t.strategies() == Seq::new(names.len(), |_c: int| CompressType::Uncompressed)
        &&& forall|i: int, c: int| 0 <= i < n && 0 <= c < names.len() ==> #[trigger] cell_reads_as(t.columns()[c], i, rows[i]@[c])
        &&& t.aggregate_values_view() == Seq::<(Seq<char>, Val)>::empty()
        &&& t.computation_values_view() == Seq::<(Seq<char>, Val)>::empty()
    })
    &&& fields_ok(src, names) && !(forall|i: int| 0 <= i < n ==> fits_types(types, #[trigger] rows[i]@)) ==> exists|k: int|
        0 <= k < n && !fits_types(types, #[trigger] rows[k]@) && (forall|j: int| 0 <= j < k ==> fits_types(types, #[trigger] rows[j]@))
        && (r matches QueryResult::Error(e) && types_refusal(types, rows[k]@, e@))
}

/// The position in `t` of each named field (the first column of its name).
pub open spec fn positions(t: Table, fields: Seq<Seq<char>>) -> Seq<int> {
    Seq::new(fields.len(), |k: int| choose|i: int| first_index_of(t.header_names(), fields[k], i))
}

/// The strategies `strats` after column `cols[k]` was given `ss[k]`, for
/// each `k` below `n` in turn.
pub open spec fn applied(strats: Seq<CompressType>, cols: Seq<int>, ss: Seq<CompressType>, n: int) -> Seq<CompressType>
    decreases n,
{
    if n <= 0 {
        strats
    } else {
        applied(strats, cols, ss, n - 1).update(cols[n - 1], ss[n - 1])
    }
}

/// Step `k` of recompressing table `t` fails: it changes a column's strategy
/// to one the column's type does not support.
pub open spec fn step_fails(t: Table, cols: Seq<int>, ss: Seq<CompressType>, k: int) -> bool {
    &&& applied(t.strategies(), cols, ss, k)[cols[k]] != ss[k]
    &&& !supports(col_type(t.columns()[cols[k]]), ss[k])
}

/// Every row of every column of `t1` stands for the same row of `t0`.
pub open spec fn same_data(t1: Table, t0: Table) -> bool {
    &&& t1.header_names() == t0.header_names()
    &&& t1.row_count() == t0.row_count()
    &&& t1.columns().len() == t0.columns().len()
    &&& forall|c: int| 0 <= c < t0.columns().len() ==> col_type(#[trigger] t1.columns()[c]) == col_type(t0.columns()[c])
    &&& forall|c: int, row: int| 0 <= c < t0.columns().len() && 0 <= row < t0.row_count()
        ==> #[trigger] cell_reads_as_cell(t1.columns()[c], t0.columns()[c], row)
    &&& t1.aggregate_values_view() == t0.aggregate_values_view()
    &&& t1.aggregate_defs() == t0.aggregate_defs()
    &&& t1.computation_values_view() == t0.computation_values_view()
    &&& t1.computation_defs() == t0.computation_defs()
}

/// Reading back through two columns in turn is reading back through one.
proof fn lemma_reads_as_cell_trans(a: Column, b: Column, c: Column, r: int)
    requires
        cell_reads_as_cell(a, b, r),
        cell_reads_as_cell(b, c, r),
    ensures
        cell_reads_as_cell(a, c, r),
{
}

/// No two bindings have the same name.
pub open spec fn distinct_names(b: Seq<(Seq<char>, Val)>) -> bool {
    forall|i: int, j: int| 0 <= i < j < b.len() ==> (#[trigger] b[i]).0 != (#[trigger] b[j]).0
}

/// The constants after setting `name` to `v`: the constant of that name takes
/// the value, or a new one is added at the end.
pub open spec fn const_set(consts: Seq<(Seq<char>, Val)>, name: Seq<char>, v: Val) -> Seq<(Seq<char>, Val)> {
    if has_name(names_of(consts), name) {
        consts.update(choose|i: int| first_index_of(names_of(consts), name, i), (name, v))
    } else {
        consts.push((name, v))
    }
}

/// A constant is what the default environment gives for its name: after
/// setting constant `name` to `v`, an environment holding every constant in
/// order binds `name` to `v`, and every other constant keeps its value.
pub proof fn law_const_visible(consts: Seq<(Seq<char>, Val)>, name: Seq<char>, v: Val, other: Seq<char>)
    requires
        distinct_names(consts),
    ensures
        distinct_names(const_set(consts, name, v)),
        scope_lookup(pushed_all(Seq::empty(), const_set(consts, name, v)), name) == Some(v),
        other != name ==> scope_lookup(pushed_all(Seq::empty(), const_set(consts, name, v)), other)
            == scope_lookup(pushed_all(Seq::empty(), consts), other),
{
    let c2 = const_set(consts, name, v);
    let names = names_of(consts);
    lemma_pushed_all_empty(c2);
    lemma_pushed_all_empty(consts);
    if has_name(names, name) {
        let i = choose|i: int| first_index_of(names, name, i);
        lemma_has_first_index(names, name);
        assert(first_index_of(names, name, i));
        assert(consts[i].0 == name);
        assert forall|a: int, b: int| 0 <= a < b < c2.len() implies (#[trigger] c2[a]).0 != (#[trigger] c2[b]).0 by {
            assert(names[a] == consts[a].0);
            assert(names[b] == consts[b].0);
        }
        assert forall|j: int| 0 <= j < i implies (#[trigger] c2[j]).0 != name by {
            assert(names[j] == consts[j].0);
        }
        lemma_first_binding_at(c2, name, i);
        if other != name {
            lemma_binding_names_agree(consts, c2, other, i);
        }
    } else {
        assert forall|j: int| 0 <= j < consts.len() implies (#[trigger] c2[j]).0 != name by {
            assert(names[j] == consts[j].0);
        }
        lemma_first_binding_at(c2, name, consts.len() as int);
        assert forall|a: int, b: int| 0 <= a < b < c2.len() implies (#[trigger] c2[a]).0 != (#[trigger] c2[b]).0 by {
            if b < consts.len() {
                assert(c2[a] == consts[a]);
                assert(c2[b] == consts[b]);
            }
        }
        if other != name {
            lemma_first_binding_push(consts, (name, v), other);
            lemma_first_binding_bound(consts, other);
        }
    }
    if c2.len() > 0 {
        assert(seq![c2].drop_last() =~= Seq::<Seq<(Seq<char>, Val)>>::empty());
    }
    if consts.len() > 0 {
        assert(seq![consts].drop_last() =~= Seq::<Seq<(Seq<char>, Val)>>::empty());
    }
}

/// A name that occurs in a list occurs first at some index.
pub proof fn lemma_has_first_index(names: Seq<Seq<char>>, name: Seq<char>)
    requires
        has_name(names, name),
    ensures
        exists|i: int| first_index_of(names, name, i),
    decreases names.len(),
{
    if names[0] == name {
        assert(first_index_of(names, name, 0));
    } else {
        let k = choose|k: int| 0 <= k < names.len() && names[k] == name;
        assert(names.drop_first()[k - 1] == name);
        lemma_has_first_index(names.drop_first(), name);
        let i = choose|i: int| first_index_of(names.drop_first(), name, i);
        assert forall|j: int| 0 <= j < i + 1 implies names[j] != name by {
            if j > 0 {
                assert(names[j] == names.drop_first()[j - 1]);
            }
        }
        assert(first_index_of(names, name, i + 1));
    }
}

/// Replacing one binding by one of the same name leaves the first binding
/// of every other name as it was.
proof fn lemma_binding_names_agree(b1: Seq<(Seq<char>, Val)>, b2: Seq<(Seq<char>, Val)>, other: Seq<char>, i: int)
    requires
        0 <= i < b1.len(),
        b2.len() == b1.len(),
        b2[i].0 == b1[i].0,
        b1[i].0 != other,
        forall|j: int| 0 <= j < b1.len() && j != i ==> b2[j] == b1[j],
    ensures
        first_binding(b2, other) == first_binding(b1, other),
    decreases b1.len(),
{
    if i > 0 {
        assert(b2[0] == b1[0]);
        lemma_binding_names_agree(b1.drop_first(), b2.drop_first(), other, i - 1);
    } else {
        assert(b2.drop_first() =~= b1.drop_first());
    }
}

/// A table created under a name not in use is the one that name finds, at
/// the end.
pub proof fn law_created_table_found(names: Seq<Seq<char>>, name: Seq<char>)
    requires
        !has_name(names, name),
    ensures
        has_name(names.push(name), name),
        first_index_of(names.push(name), name, names.len() as int),
{
    assert(names.push(name)[names.len() as int] == name);
    assert forall|j: int| 0 <= j < names.len() implies names.push(name)[j] != name by {
        assert(names.push(name)[j] == names[j]);
    }
}

/// Where the value of a column comes from in an `INSERT`.
#[derive(PartialEq, Eq, Debug, Clone, Copy, Structural)]
pub enum CellSource {
    /// The column is calculated: its expression gives the value.
    Calculated,
    /// The value expression at this index of the query's list gives it.
    Given(usize),
    /// The query names fields and leaves this one out: null.
    Missing,
}

/// Where the value of column `i` comes from, for a table whose calculated
/// columns are `calc` and whose column names are `headers`, when the query
/// names the fields `fields` (or none): a calculated column is calculated;
/// otherwise the value is the one given for the column's name (the first
/// field of that name), or null when the fields leave it out; with no fields
/// named, the `i`-th value.
pub open spec fn source_of(
    calc: Seq<Option<Expr>>,
    headers: Seq<Seq<char>>,
    fields: Option<Seq<Seq<char>>>,
    i: int,
) -> CellSource {
    if calc[i] is Some {
        CellSource::Calculated
    } else {
        match fields {
            None => CellSource::Given(i as usize),
            Some(f) => if has_name(f, headers[i]) {
                CellSource::Given((choose|k: int| first_index_of(f, headers[i], k)) as usize)
            } else {
                CellSource::Missing
            },
        }
    }
}

/// The fields named in an `INSERT`, as text.
pub open spec fn opt_texts(fields: Option<Vec<String>>) -> Option<Seq<Seq<char>>> {
    match fields {
        Some(v) => Some(texts(v@)),
        None => None,
    }
}

/// The items of `items` whose flag in `flags` is set, in order.
pub open spec fn flagged<T>(items: Seq<T>, flags: Seq<bool>) -> Seq<T>
    decreases items.len(),
{
    if items.len() == 0 {
        Seq::empty()
    } else {
        let rest = flagged(items.drop_last(), flags);
        if flags[items.len() - 1] {
            rest.push(items.last())
        } else {
            rest
        }
    }
}

/// The rows a `WHERE` keeps: those whose flag is set, in order.
pub fn rows_where(rows: Vec<Vec<Val>>, flags: &Vec<bool>) -> (r: Vec<Vec<Val>>)
    requires
        flags@.len() == rows@.len(),
    ensures
        r@ == flagged(rows@, flags@),
{
    let mut out: Vec<Vec<Val>> = Vec::new();
    let mut rows = rows;
    let ghost all = rows@;
    let mut rev: Vec<Vec<Val>> = Vec::new();
    while rows.len() > 0
        invariant
            all.len() == flags@.len(),
            rows@ == all.take(rows@.len() as int),
            rows@.len() + rev@.len() == all.len(),
            forall|k: int| 0 <= k < rev@.len() ==> #[trigger] rev@[k] == all[all.len() - 1 - k],
        decreases rows@.len(),
    {
        let row = rows.pop().unwrap();
        rev.push(row);
        assert(rows@ =~= all.take(rows@.len() as int));
    }
    let mut i: usize = 0;
    let n = rev.len();
    while i < n
        invariant
            n == all.len(),
            all.len() == flags@.len(),
            i <= n,
            rev@.len() == n - i,
            forall|k: int| 0 <= k < rev@.len() ==> #[trigger] rev@[k] == all[all.len() - 1 - k],
            out@ == flagged(all.take(i as int), flags@),
        decreases n - i,
    {
        let row = rev.pop().unwrap();
        assert(row == all[i as int]);
        assert(all.take(i + 1).drop_last() =~= all.take(i as int));
        if flags[i] {
            out.push(row);
        }
        i += 1;
    }
    assert(all.take(n as int) =~= all);
    out
}

/// The first index of `name` in `names`, if it is there.
fn position_of(names: &Vec<String>, name: &String) -> (r: Option<usize>)
    ensures
        r is None == !has_name(texts(names@), name@),
        r matches Some(k) ==> first_index_of(texts(names@), name@, k as int),
{
    let ghost ns = texts(names@);
    let mut k: usize = 0;
    while k < names.len()
        invariant
            ns == texts(names@),
            k <= names@.len(),
            forall|j: int| 0 <= j < k ==> ns[j] != name@,
        decreases names@.len() - k,
    {
        if names[k] == *name {
            assert(ns[k as int] == name@);
            return Some(k);
        }
        k += 1;
    }
    None
}

/// A row fits a table exactly when it fits the table's column types.
proof fn lemma_fits_types(t: Table, types: Seq<ColType>, data: Seq<Val>)
    requires
        t.columns().len() == types.len(),
        forall|c: int| 0 <= c < types.len() ==> col_type(#[trigger] t.columns()[c]) == types[c],
    ensures
        row_fits(t, data) == fits_types(types, data),
{
    if data.len() == types.len() {
        if all_accepted(t.columns(), data) {
            assert forall|c: int| 0 <= c < types.len() implies accepts(types[c], #[trigger] data[c]) by {
                assert(accepts(col_type(t.columns()[c]), data[c]));
            }
        }
        if fits_types(types, data) {
            assert forall|c: int| 0 <= c < t.columns().len() implies accepts(col_type(#[trigger] t.columns()[c]), data[c]) by {
                assert(accepts(types[c], data[c]));
            }
        }
    }
}

/// The database.
pub struct Database {
    tables: Vec<Table>,
    table_names: Vec<String>,
    constants: Vec<(String, Rc<Val>)>,
    calculated: Vec<Vec<Option<Expr>>>,
}

impl Database {
    /// The tables' names, in order of creation.
    pub closed spec fn names(&self) -> Seq<Seq<char>> {
        texts(self.table_names@)
    }

    /// The tables, in order of creation.
    pub closed spec fn tables(&self) -> Seq<Table> {
        self.tables@
    }

    /// The constants: names and values, in order of creation.
    pub closed spec fn constants(&self) -> Seq<(Seq<char>, Val)> {
        binding_view(self.constants@)
    }

    /// For each table, for each of its columns in order, the expression that
    /// calculates it, if it is calculated.
    pub closed spec fn calculated(&self) -> Seq<Seq<Option<Expr>>> {
        self.calculated@.map_values(|v: Vec<Option<Expr>>| v@)
    }

    /// One name and one list of calculated columns per table (at most one
    /// entry per column), every table
    /// well formed, no two tables of one name, and no two constants of one
    /// name.
    pub closed spec fn wf(&self) -> bool {
        &&& self.tables@.len() == self.table_names@.len()
        &&& self.calculated@.len() == self.tables@.len()
        &&& forall|i: int| 0 <= i < self.tables@.len() ==> (#[trigger] self.calculated@[i])@.len() <= self.tables@[i].columns().len()
        &&& forall|i: int| 0 <= i < self.tables@.len() ==> (#[trigger] self.tables@[i]).wf()
        &&& forall|i: int, j: int| 0 <= i < j < self.table_names@.len() ==> self.table_names@[i]@ != self.table_names@[j]@
        &&& distinct_names(self.constants())
    }

    /// An empty database.
    pub fn new() -> (r: Database)
        ensures
            r.wf(),
            r.names() == Seq::<Seq<char>>::empty(),
            r.tables() == Seq::<Table>::empty(),
            r.constants() == Seq::<(Seq<char>, Val)>::empty(),
            r.calculated() == Seq::<Seq<Option<Expr>>>::empty(),
    {
        let r = Database {
            tables: Vec::new(),
            table_names: Vec::new(),
            constants: Vec::new(),
            calculated: Vec::new(),
        };
        assert(r.names() =~= Seq::<Seq<char>>::empty());
        assert(r.constants() =~= Seq::<(Seq<char>, Val)>::empty());
        assert(r.calculated() =~= Seq::<Seq<Option<Expr>>>::empty());
        r
    }

    /// The index of the table called `name`; an error when there is none.
    pub fn get_table_index(&self, name: &String) -> (r: Result<usize, String>)
        ensures
            r is Err == !has_name(self.names(), name@),
            r matches Ok(i) ==> first_index_of(self.names(), name@, i as int),
            r matches Err(e) ==> e@ == "Table "@ + name@ + " does not exist"@,
    {
        let ghost names = self.names();
        let mut i: usize = 0;
        while i < self.table_names.len()
            invariant
                names == self.names(),
                i <= self.table_names@.len(),
                forall|j: int| 0 <= j < i ==> names[j] != name@,
            decreases self.table_names@.len() - i,
        {
            if self.table_names[i] == *name {
                assert(names[i as int] == name@);
                return Ok(i);
            }
            i += 1;
        }
        Err(String::from_str("Table ").concat(name.as_str()).concat(" does not exist"))
    }

    /// The tables' names.
    pub fn get_table_names(&self) -> (r: &Vec<String>)
        ensures
            texts(r@) == self.names(),
    {
        &self.table_names
    }

    /// The table at `idx`.
    pub fn get_table(&self, idx: usize) -> (r: &Table)
        requires
            idx < self.tables().len(),
        ensures
            *r == self.tables()[idx as int],
    {
        &self.tables[idx]
    }

    /// The expression that calculates column `col` of table `idx`, if that
    /// column is calculated.
    pub fn get_calculated(&self, idx: usize, col: usize) -> (r: Option<&Expr>)
        requires
            self.wf(),
            idx < self.tables().len(),
            col < self.calculated()[idx as int].len(),
        ensures
            r matches Some(e) ==> self.calculated()[idx as int][col as int] == Some(*e),
            r is None ==> self.calculated()[idx as int][col as int] is None,
    {
        match &self.calculated[idx][col] {
            Some(e) => Some(e),
            None => None,
        }
    }

    /// How many columns of table `idx` have an entry saying whether they are
    /// calculated.
    pub fn calculated_count(&self, idx: usize) -> (r: usize)
        requires
            self.wf(),
            idx < self.tables().len(),
        ensures
            r == self.calculated()[idx as int].len(),
    {
        self.calculated[idx].len()
    }

    /// An environment in which every constant is bound, in order of creation.
    pub fn default_environment(&self) -> (r: Environment)
        ensures
            r.frame_list() == pushed_all(Seq::empty(), self.constants()),
    {
        let mut def_env = Environment::new();
        let ghost bs = self.constants();
        let mut i: usize = 0;
        assert(bs.take(0) =~= Seq::<(Seq<char>, Val)>::empty());
        while i < self.constants.len()
            invariant
                bs == self.constants(),
                i <= self.constants@.len(),
                def_env.frame_list() == pushed_all(Seq::empty(), bs.take(i as int)),
            decreases self.constants@.len() - i,
        {
            def_env.push_shared(self.constants[i].0.clone(), rc_clone(&self.constants[i].1));
            proof {
                assert(bs.take(i + 1).drop_last() =~= bs.take(i as int));
            }
            i += 1;
        }
        assert(bs.take(i as int) =~= bs);
        def_env
    }

    /// Adds table `t` called `name`, with `calc` for its calculated columns.
    fn push_table(&mut self, name: &String, t: Table, calc: Vec<Option<Expr>>)
        requires
            old(self).wf(),
            t.wf(),
            calc@.len() <= t.columns().len(),
            !has_name(old(self).names(), name@),
        ensures
            final(self).wf(),
            final(self).names() == old(self).names().push(name@),
            final(self).tables() == old(self).tables().push(t),
            final(self).calculated() == old(self).calculated().push(calc@),
            final(self).constants() == old(self).constants(),
    {
        let ghost old_names = self.table_names@;
        self.table_names.push(name.clone());
        self.tables.push(t);
        self.calculated.push(calc);
        proof {
            assert(self.names() =~= old(self).names().push(name@));
            assert(self.calculated() =~= old(self).calculated().push(calc@));
            assert forall|i: int, j: int| 0 <= i < j < self.table_names@.len() implies self.table_names@[i]@ != self.table_names@[j]@ by {
                if j == old_names.len() {
                    assert(old(self).names()[i] == old_names[i]@);
                }
            }
            assert forall|i: int| 0 <= i < self.tables@.len() implies (#[trigger] self.tables@[i]).wf() by {
                if i < old(self).tables@.len() {
                    assert(self.tables@[i] == old(self).tables@[i]);
                }
            }
            assert forall|i: int| 0 <= i < self.tables@.len() implies (#[trigger] self.calculated@[i])@.len() <= self.tables@[i].columns().len() by {
                if i < old(self).tables@.len() {
                    assert(self.tables@[i] == old(self).tables@[i]);
                    assert(self.calculated@[i] == old(self).calculated@[i]);
                }
            }
        }
    }

    /// Creates table `table_name` with the schema's columns, empty. The name
    /// must not be in use. Creation stops at the first column whose name
    /// repeats an earlier one or whose type does not support its strategy:
    /// the table is kept with the columns made so far (a column with an
    /// unsupported strategy among them, stored without compression and not
    /// listed among the calculated-column entries), and the result is that
    /// error.
    pub fn create_table(&mut self, table_name: &String, schema: &ColList) -> (r: QueryResult)
        requires
            old(self).wf(),
            !has_name(old(self).names(), table_name@),
        ensures
            final(self).wf(),
            final(self).names() == old(self).names().push(table_name@),
            final(self).constants() == old(self).constants(),
            final(self).tables().drop_last() == old(self).tables(),
            final(self).calculated().drop_last() == old(self).calculated(),
            final(self).tables().len() == old(self).tables().len() + 1,
            final(self).calculated().len() == old(self).calculated().len() + 1,
            schema_ok(cols_view(schema@)) ==> {
                &&& r matches QueryResult::Success(m) && m@ == "Created table "@ + table_name@
                &&& holds_schema(final(self).tables().last(), cols_view(schema@), schema@.len() as int)
                &&& final(self).calculated().last() == Seq::new(schema@.len(), |_i: int| None::<Expr>)
            },
            !schema_ok(cols_view(schema@)) ==> exists|k: int| #[trigger] first_bad_column(cols_view(schema@), k) && {
                let sv = cols_view(schema@);
                let t = final(self).tables().last();
                &&& r matches QueryResult::Error(e) && e@ == column_error(sv, k)
                &&& holds_columns(t, sv, kept_columns(sv, k))
                &&& t.strategies() == if kept_columns(sv, k) == k {
                    schema_strategies(sv, k)
                } else {
                    schema_strategies(sv, k).push(CompressType::Uncompressed)
                }
                &&& final(self).calculated().last() == Seq::new(k as nat, |_i: int| None::<Expr>)
            },
    {
        let ghost sv = cols_view(schema@);
        let mut t = Table::new();
        let mut calc: Vec<Option<Expr>> = Vec::new();
        proof {
            assert(schema_names(sv).take(0) =~= Seq::<Seq<char>>::empty());
            assert(sv.take(0).map_values(|c: (Seq<char>, ColType, Option<CompressType>)| strategy_of(c.2)) =~= Seq::<CompressType>::empty());
            assert(calc@ =~= Seq::new(0, |_i: int| None::<Expr>));
        }
        let mut i: usize = 0;
        while i < schema.len()
            invariant
                sv == cols_view(schema@),
                i <= schema@.len(),
                t.wf(),
                holds_schema(t, sv, i as int),
                calc@ == Seq::new(i as nat, |_i: int| None::<Expr>),
                forall|j: int| 0 <= j < i ==> column_ok(sv, j),
                old(self).wf(),
                *self == *old(self),
                !has_name(old(self).names(), table_name@),
            decreases schema@.len() - i,
        {
            let ctype = match schema[i].2 {
                Some(x) => x,
                None => CompressType::Uncompressed,
            };
            let ghost before = t;
            let ghost names_i = schema_names(sv).take(i as int);
            assert(sv[i as int] == (schema@[i as int].0@, schema@[i as int].1, schema@[i as int].2));
            assert(schema_names(sv).take(i + 1) =~= names_i.push(sv[i as int].0));
            assert(sv.take(i + 1).map_values(|c: (Seq<char>, ColType, Option<CompressType>)| strategy_of(c.2))
                =~= sv.take(i as int).map_values(|c: (Seq<char>, ColType, Option<CompressType>)| strategy_of(c.2)).push(ctype));
            match t.add_column(&schema[i].0, schema[i].1, ctype) {
                Ok(()) => {},
                Err(e) => {
                    proof {
                        assert(first_bad_column(sv, i as int));
                        assert(schema_strategies(sv, i as int) == before.strategies());
                        if !has_name(names_i, sv[i as int].0) {
                            assert(holds_columns(t, sv, i + 1));
                        } else {
                            assert(holds_columns(t, sv, i as int));
                        }
                    }
                    self.push_table(table_name, t, calc);
                    return QueryResult::Error(e);
                },
            }
            calc.push(None);
            i += 1;
            assert(calc@ =~= Seq::new(i as nat, |_i: int| None::<Expr>));
        }
        proof {
            assert(sv.len() == schema@.len());
            assert(schema_ok(sv));
        }
        self.push_table(table_name, t, calc);
        QueryResult::Success(String::from_str("Created table ").concat(table_name.as_str()))
    }

    /// Sets constant `name` to `val`: the first constant of that name takes
    /// the value, or a new constant is added.
    pub fn create_const(&mut self, name: &String, val: Val) -> (r: QueryResult)
        requires
            old(self).wf(),
        ensures
            final(self).wf(),
            final(self).names() == old(self).names(),
            final(self).tables() == old(self).tables(),
            final(self).calculated() == old(self).calculated(),
            has_name(names_of(old(self).constants()), name@) ==> exists|i: int|
                #[trigger] first_index_of(names_of(old(self).constants()), name@, i)
                && final(self).constants() == old(self).constants().update(i, (name@, val)),
            !has_name(names_of(old(self).constants()), name@) ==> final(self).constants() == old(self).constants().push((name@, val)),
            final(self).constants() == const_set(old(self).constants(), name@, val),
            r matches QueryResult::Success(m) && m@ == "Const "@ + name@,
    {
        let ghost names = names_of(self.constants());
        let mut i: usize = 0;
        while i < self.constants.len()
            invariant
                names == names_of(self.constants()),
                old(self).wf(),
                *self == *old(self),
                i <= self.constants@.len(),
                forall|j: int| 0 <= j < i ==> names[j] != name@,
            decreases self.constants@.len() - i,
        {
            if self.constants[i].0 == *name {
                assert(names[i as int] == name@);
                assert(first_index_of(names, name@, i as int));
                let ghost v = val;
                proof {
                    let c = choose|c: int| first_index_of(names, name@, c);
                    assert(first_index_of(names, name@, c));
                    if c < i {
                        assert(names[c] == name@);
                    } else if i < c {
                        assert(names[i as int] == name@);
                    }
                    law_const_visible(old(self).constants(), name@, v, name@);
                }
                self.constants.set(i, (name.clone(), Rc::new(val)));
                assert(self.constants() =~= old(self).constants().update(i as int, (name@, v)));
                return QueryResult::Success(String::from_str("Const ").concat(name.as_str()));
            }
            i += 1;
        }
        let ghost v = val;
        proof {
            assert forall|j: int| 0 <= j < names.len() implies names[j] != name@ by {}
            law_const_visible(old(self).constants(), name@, v, name@);
        }
        self.constants.push((name.clone(), Rc::new(val)));
        assert(self.constants() =~= old(self).constants().push((name@, v)));
        QueryResult::Success(String::from_str("Const ").concat(name.as_str()))
    }

    /// The current value of aggregate `ag_name` of table `table_name`.
    pub fn select_aggregate(&self, ag_name: &String, table_name: &String) -> (r: QueryResult)
        requires
            self.wf(),
        ensures
            !has_name(self.names(), table_name@) ==> (r matches QueryResult::Error(e) && e@ == "Table "@ + table_name@ + " does not exist"@),
            forall|t: int| #[trigger] first_index_of(self.names(), table_name@, t) ==> {
                let ags = self.tables()[t].aggregate_values_view();
                &&& has_name(names_of(ags), ag_name@) ==> (r matches QueryResult::Value(v) && exists|i: int|
                    #[trigger] first_index_of(names_of(ags), ag_name@, i) && *v == ags[i].1)
                &&& !has_name(names_of(ags), ag_name@) ==> (r matches QueryResult::Error(e) && e@ == "Aggregate "@ + " does not exist"@)
            },
    {
        let table_idx = match self.get_table_index(table_name) {
            Ok(i) => i,
            Err(e) => return QueryResult::Error(e),
        };
        proof {
            assert forall|t: int| #[trigger] first_index_of(self.names(), table_name@, t) implies t == table_idx by {}
        }
        let table = &self.tables[table_idx];
        match table.get_aggregate(ag_name) {
            Ok(v) => QueryResult::Value(v),
            Err(e) => QueryResult::Error(e),
        }
    }

    /// The current value of computation `comp_name` of table `table_name`.
    pub fn select_computation(&self, comp_name: &String, table_name: &String) -> (r: QueryResult)
        requires
            self.wf(),
        ensures
            !has_name(self.names(), table_name@) ==> (r matches QueryResult::Error(e) && e@ == "Table "@ + table_name@ + " does not exist"@),
            forall|t: int| #[trigger] first_index_of(self.names(), table_name@, t) ==> {
                let cps = self.tables()[t].computation_values_view();
                &&& has_name(names_of(cps), comp_name@) ==> (r matches QueryResult::Value(v) && exists|i: int|
                    #[trigger] first_index_of(names_of(cps), comp_name@, i) && *v == cps[i].1)
                &&& !has_name(names_of(cps), comp_name@) ==> (r matches QueryResult::Error(e) && e@ == "Computation "@ + comp_name@ + " does not exist"@)
            },
    {
        let table_idx = match self.get_table_index(table_name) {
            Ok(i) => i,
            Err(e) => return QueryResult::Error(e),
        };
        proof {
            assert forall|t: int| #[trigger] first_index_of(self.names(), table_name@, t) implies t == table_idx by {}
        }
        let table = &self.tables[table_idx];
        match table.get_computation(comp_name) {
            Ok(v) => QueryResult::Value(v),
            Err(e) => QueryResult::Error(e),
        }
    }

    /// Adds the row `values_insert` to table `table_idx` and gives its
    /// aggregates and computations the values `ag_vals` and `comp_vals`,
    /// stopping at the first step that fails (a row the table does not take,
    /// or a count of values that does not match).
    pub fn insert_and_update(
        &mut self,
        table_name: &String,
        table_idx: usize,
        values_insert: Vec<Val>,
        ag_vals: Vec<Val>,
        comp_vals: Vec<Val>,
    ) -> (r: QueryResult)
        requires
            old(self).wf(),
            table_idx < old(self).tables().len(),
            old(self).tables()[table_idx as int].row_count() < usize::MAX,
            forall|c: int| 0 <= c < old(self).tables()[table_idx as int].columns().len()
                ==> (#[trigger] old(self).tables()[table_idx as int].columns()[c]).has_room(),
        ensures
            final(self).wf(),
            final(self).names() == old(self).names(),
            final(self).constants() == old(self).constants(),
            final(self).calculated() == old(self).calculated(),
            final(self).tables() == old(self).tables().update(table_idx as int, final(self).tables()[table_idx as int]),
            ({
                let t0 = old(self).tables()[table_idx as int];
                let t1 = final(self).tables()[table_idx as int];
                &&& !row_fits(t0, values_insert@) ==> (r matches QueryResult::Error(e) && row_refusal(t0, t1, values_insert@, e@))
                &&& row_fits(t0, values_insert@) ==> {
                    &&& row_appended(t0, t1, values_insert@)
                    &&& t1.aggregate_defs() == t0.aggregate_defs()
                    &&& t1.computation_defs() == t0.computation_defs()
                    &&& ag_vals@.len() != t0.aggregate_values_view().len() ==> (r matches QueryResult::Error(e)
                        && e@ == "Number of aggregate values given does not match number of aggregates stored"@
                        && t1.aggregate_values_view() == t0.aggregate_values_view()
                        && t1.computation_values_view() == t0.computation_values_view())
                    &&& ag_vals@.len() == t0.aggregate_values_view().len() ==> {
                        &&& t1.aggregate_values_view() == with_values(t0.aggregate_values_view(), ag_vals@)
                        &&& comp_vals@.len() != t0.computation_values_view().len() ==> (r matches QueryResult::Error(e)
                            && e@ == "Number of values given does not match number of computations"@
                            && t1.computation_values_view() == t0.computation_values_view())
                        &&& comp_vals@.len() == t0.computation_values_view().len() ==> (r matches QueryResult::Success(m)
                            && m@ == "Insert on "@ + table_name@
                            && t1.computation_values_view() == with_values(t0.computation_values_view(), comp_vals@))
                    }
                }
            }),
    {
        assert(self.tables@[table_idx as int].wf());
        let r = self.tables[table_idx].add_row(values_insert);
        proof {
            assert forall|i: int| 0 <= i < self.tables@.len() implies (#[trigger] self.tables@[i]).wf() by {
                if i != table_idx {
                    assert(self.tables@[i] == old(self).tables@[i]);
                }
            }
        }
        match r {
            Ok(()) => {},
            Err(e) => return QueryResult::Error(e),
        }
        let ghost mid = *self;
        let r = self.tables[table_idx].update_aggregates(ag_vals);
        proof {
            assert forall|i: int| 0 <= i < self.tables@.len() implies (#[trigger] self.tables@[i]).wf() by {
                if i != table_idx {
                    assert(self.tables@[i] == mid.tables@[i]);
                }
            }
        }
        match r {
            Ok(()) => {},
            Err(e) => return QueryResult::Error(e),
        }
        let ghost mid2 = *self;
        let r = self.tables[table_idx].update_computations(comp_vals);
        proof {
            assert forall|i: int| 0 <= i < self.tables@.len() implies (#[trigger] self.tables@[i]).wf() by {
                if i != table_idx {
                    assert(self.tables@[i] == mid2.tables@[i]);
                }
            }
        }
        match r {
            Ok(()) => {},
            Err(e) => return QueryResult::Error(e),
        }
        QueryResult::Success(String::from_str("Insert on ").concat(table_name.as_str()))
    }

    /// Adds `col`, already holding a value for each row, to table
    /// `table_idx` as column `col_name`, stored with the strategy `s` (`none`
    /// if not given), and records it as calculated by `expr`. A name in use or
    /// a column of another length (see `Table::add_populated_column`) is an
    /// error that changes nothing; an unsupported strategy is an error that
    /// leaves the column added but not recorded as calculated.
    pub fn register_column(
        &mut self,
        table_idx: usize,
        col_name: &String,
        col: Column,
        s: Option<CompressType>,
        expr: Expr,
        table_name: &String,
    ) -> (r: QueryResult)
        requires
            old(self).wf(),
            table_idx < old(self).tables().len(),
            col.wf(),
            strategy_of(s) == CompressType::BitMap || strategy_of(s) == CompressType::Xor ==> col.row_count() <= row_limit(),
        ensures
            final(self).wf(),
            final(self).names() == old(self).names(),
            final(self).constants() == old(self).constants(),
            final(self).tables() == old(self).tables().update(table_idx as int, final(self).tables()[table_idx as int]),
            ({
                let t0 = old(self).tables()[table_idx as int];
                let t1 = final(self).tables()[table_idx as int];
                let fits = col.reported_len() == t0.row_count() && col.scheme() != CompressType::Xor;
                let added = !has_name(t0.header_names(), col_name@) && fits;
                let ok = supports(col_type(col), strategy_of(s)) || col.scheme() == strategy_of(s);
                &&& has_name(t0.header_names(), col_name@) ==> (r matches QueryResult::Error(e)
                    && e@ == "Duplicate column "@ + col_name@)
                &&& !has_name(t0.header_names(), col_name@) && !fits ==> (r matches QueryResult::Error(e)
                    && e@ == "Could not insert pre-populated column due to size mismatch "@ + col_name@)
                &&& !added ==> t1 == t0 && final(self).calculated() == old(self).calculated()
                &&& added ==> {
                    &&& t1.header_names() == t0.header_names().push(col_name@)
                    &&& t1.row_count() == t0.row_count()
                    &&& t1.strategies() == t0.strategies().push(if ok { strategy_of(s) } else { col.scheme() })
                    &&& t1.columns().drop_last() == t0.columns()
                    &&& col_type(t1.columns().last()) == col_type(col)
                    &&& t1.columns().last().scheme() == t1.strategies().last()
                    &&& forall|row: int| 0 <= row < t0.row_count() ==> #[trigger] cell_reads_as_cell(t1.columns().last(), col, row)
                    &&& t1.aggregate_values_view() == t0.aggregate_values_view()
                    &&& t1.computation_values_view() == t0.computation_values_view()
                    &&& ok ==> (r matches QueryResult::Success(m)
                        && m@ == "Column "@ + col_name@ + " on "@ + table_name@
                        && final(self).calculated() == old(self).calculated().update(
                            table_idx as int,
                            old(self).calculated()[table_idx as int].push(Some(expr)),
                        ))
                    &&& !ok ==> (r matches QueryResult::Error(e)
                        && e@ == unsupported_msg(col_type(col), strategy_of(s))
                        && final(self).calculated() == old(self).calculated())
                }
            }),
    {
        let ctype = match s {
            Some(x) => x,
            None => CompressType::Uncompressed,
        };
        assert(self.tables@[table_idx as int].wf());
        let r = self.tables[table_idx].add_populated_column(col_name, col, ctype);
        proof {
            assert forall|i: int| 0 <= i < self.tables@.len() implies (#[trigger] self.tables@[i]).wf() by {
                if i != table_idx {
                    assert(self.tables@[i] == old(self).tables@[i]);
                }
            }
            if !has_name(old(self).tables()[table_idx as int].header_names(), col_name@) && col.reported_len() == old(self).tables()[table_idx as int].row_count()
                && col.scheme() != CompressType::Xor {
                assert(self.tables()[table_idx as int].columns().drop_last() =~= old(self).tables()[table_idx as int].columns());
            }
        }
        match r {
            Ok(()) => {},
            Err(e) => return QueryResult::Error(e),
        }
        let ghost e = expr;
        self.calculated[table_idx].push(Some(expr));
        assert(self.calculated() =~= old(self).calculated().update(
            table_idx as int,
            old(self).calculated()[table_idx as int].push(Some(e)),
        ));
        QueryResult::Success(String::from_str("Column ").concat(col_name.as_str()).concat(" on ").concat(table_name.as_str()))
    }

    /// Adds aggregate `ag_name` to table `table_idx`, with value `val`, update
    /// expression `expr` and initial expression `init`.
    pub fn register_aggregate(
        &mut self,
        table_idx: usize,
        ag_name: &String,
        val: Val,
        expr: Expr,
        init: Option<Expr>,
        table_name: &String,
    ) -> (r: QueryResult)
        requires
            old(self).wf(),
            table_idx < old(self).tables().len(),
        ensures
            final(self).wf(),
            final(self).names() == old(self).names(),
            final(self).constants() == old(self).constants(),
            final(self).calculated() == old(self).calculated(),
            final(self).tables() == old(self).tables().update(table_idx as int, final(self).tables()[table_idx as int]),
            ({
                let t0 = old(self).tables()[table_idx as int];
                let t1 = final(self).tables()[table_idx as int];
                &&& t1.aggregate_values_view() == t0.aggregate_values_view().push((ag_name@, val))
                &&& t1.aggregate_defs() == t0.aggregate_defs().push((expr, init))
                &&& t1.header_names() == t0.header_names()
                &&& t1.columns() == t0.columns()
                &&& t1.strategies() == t0.strategies()
                &&& t1.row_count() == t0.row_count()
                &&& t1.computation_values_view() == t0.computation_values_view()
                &&& t1.computation_defs() == t0.computation_defs()
            }),
            r matches QueryResult::Success(m) && m@ == "Aggregate "@ + ag_name@ + " on "@ + table_name@,
    {
        assert(self.tables@[table_idx as int].wf());
        self.tables[table_idx].add_aggregate(ag_name, val, expr, init);
        proof {
            assert forall|i: int| 0 <= i < self.tables@.len() implies (#[trigger] self.tables@[i]).wf() by {
                if i != table_idx {
                    assert(self.tables@[i] == old(self).tables@[i]);
                }
            }
        }
        QueryResult::Success(String::from_str("Aggregate ").concat(ag_name.as_str()).concat(" on ").concat(table_name.as_str()))
    }

    /// Adds computation `comp_name` to table `table_idx`, with value `val`
    /// and expression `expr`.
    pub fn register_computation(
        &mut self,
        table_idx: usize,
        comp_name: &String,
        val: Val,
        expr: Expr,
        table_name: &String,
    ) -> (r: QueryResult)
        requires
            old(self).wf(),
            table_idx < old(self).tables().len(),
        ensures
            final(self).wf(),
            final(self).names() == old(self).names(),
            final(self).constants() == old(self).constants(),
            final(self).calculated() == old(self).calculated(),
            final(self).tables() == old(self).tables().update(table_idx as int, final(self).tables()[table_idx as int]),
            ({
                let t0 = old(self).tables()[table_idx as int];
                let t1 = final(self).tables()[table_idx as int];
                &&& t1.computation_values_view() == t0.computation_values_view().push((comp_name@, val))
                &&& t1.computation_defs() == t0.computation_defs().push(expr)
                &&& t1.header_names() == t0.header_names()
                &&& t1.columns() == t0.columns()
                &&& t1.strategies() == t0.strategies()
                &&& t1.row_count() == t0.row_count()
                &&& t1.aggregate_values_view() == t0.aggregate_values_view()
                &&& t1.aggregate_defs() == t0.aggregate_defs()
            }),
            r matches QueryResult::Success(m) && m@ == "Computation "@ + comp_name@ + " on "@ + table_name@,
    {
        assert(self.tables@[table_idx as int].wf());
        self.tables[table_idx].add_computation(comp_name, val, expr);
        proof {
            assert forall|i: int| 0 <= i < self.tables@.len() implies (#[trigger] self.tables@[i]).wf() by {
                if i != table_idx {
                    assert(self.tables@[i] == old(self).tables@[i]);
                }
            }
        }
        QueryResult::Success(String::from_str("Computation ").concat(comp_name.as_str()).concat(" on ").concat(table_name.as_str()))
    }

    /// The answer to a `SELECT` on table `table_idx`: a new table with the
    /// columns `fields` (all of the table's columns when `None`), each of its
    /// source column's type and stored plainly, holding the first rows of
    /// `rows` as far as `limit` allows. A field that the table lacks, or that
    /// is named twice, is an error, and so is a row the new table does not
    /// take.
    pub fn project(&self, table_idx: usize, fields: &Option<Vec<String>>, rows: Vec<Vec<Val>>, limit: Option<usize>) -> (r: QueryResult)
        requires
            self.wf(),
            table_idx < self.tables().len(),
            projection_types(
                self.tables()[table_idx as int],
                field_names(*fields, self.tables()[table_idx as int]),
            ).contains(ColType::Boolean) ==> taken(rows@.len() as int, limit) <= row_limit(),
        ensures
            projection_outcome(
                self.tables()[table_idx as int],
                field_names(*fields, self.tables()[table_idx as int]),
                rows@,
                limit,
                r,
            ),
    {
        let src = &self.tables[table_idx];
        assert(src.wf());
        let field_list: &Vec<String> = match fields {
            Some(v) => v,
            None => src.get_headers(),
        };
        let ghost names = texts(field_list@);
        let ghost types = projection_types(*src, names);
        proof {
            assert(names =~= field_names(*fields, *src));
        }
        let mut t = Table::new();
        proof {
            assert(names.take(0) =~= Seq::<Seq<char>>::empty());
            assert(t.strategies() =~= Seq::new(0, |_c: int| CompressType::Uncompressed));
        }
        let mut k: usize = 0;
        while k < field_list.len()
            invariant
                src.wf(),
                table_idx < self.tables().len(),
                *src == self.tables()[table_idx as int],
                names == field_names(*fields, self.tables()[table_idx as int]),
                names == texts(field_list@),
                types == projection_types(*src, names),
                k <= field_list@.len(),
                t.wf(),
                t.header_names() == names.take(k as int),
                t.columns().len() == k,
                forall|c: int| 0 <= c < k ==> col_type(#[trigger] t.columns()[c]) == types[c],
                t.strategies() == Seq::new(k as nat, |_c: int| CompressType::Uncompressed),
                t.row_count() == 0,
                forall|c: int| 0 <= c < k ==> (#[trigger] t.columns()[c]).row_count() == 0,
                t.aggregate_values_view() == Seq::<(Seq<char>, Val)>::empty(),
                t.computation_values_view() == Seq::<(Seq<char>, Val)>::empty(),
                forall|j: int| 0 <= j < k ==> field_ok(*src, names, j),
            decreases field_list@.len() - k,
        {
            let field = &field_list[k];
            assert(names[k as int] == field@);
            let c = match src.get_column(field) {
                Ok(c) => c,
                Err(e) => {
                    let r = QueryResult::Error(e);
                    proof {
                        assert(first_bad_field(*src, names, k as int));
                        assert(projection_outcome(*src, names, rows@, limit, r));
                    }
                    return r;
                },
            };
            let ty = match c {
                Column::Boolean(_) => ColType::Boolean,
                Column::Number(_) => ColType::Number,
                Column::String(_) => ColType::String,
            };
            proof {
                let i = choose|i: int| first_index_of(src.header_names(), field@, i) && *c == src.columns()[i];
                let i2 = choose|i: int| first_index_of(src.header_names(), field@, i);
                assert(first_index_of(src.header_names(), field@, i2));
                if i < i2 {
                    assert(src.header_names()[i] == field@);
                } else if i2 < i {
                    assert(src.header_names()[i2] == field@);
                }
                assert(ty == types[k as int]);
            }
            match t.add_column(field, ty, CompressType::Uncompressed) {
                Ok(()) => {},
                Err(e) => {
                    let r = QueryResult::Error(e);
                    proof {
                        assert(first_bad_field(*src, names, k as int));
                        assert(projection_outcome(*src, names, rows@, limit, r));
                    }
                    return r;
                },
            }
            proof {
                assert(names.take(k + 1) =~= names.take(k as int).push(field@));
                assert(t.strategies() =~= Seq::new((k + 1) as nat, |_c: int| CompressType::Uncompressed));
            }
            k += 1;
        }
        proof {
            assert(names.take(k as int) =~= names);
            assert(fields_ok(*src, names));
        }
        let n: usize = match limit {
            Some(x) => if x < rows.len() {
                x
            } else {
                rows.len()
            },
            None => rows.len(),
        };
        let ghost all = rows@;
        let mut rest = reversed(rows);
        proof {
            assert(all.subrange(0, all.len() as int) =~= all);
        }
        let mut i: usize = 0;
        while i < n
            invariant
                table_idx < self.tables().len(),
                *src == self.tables()[table_idx as int],
                names == field_names(*fields, self.tables()[table_idx as int]),
                types == projection_types(*src, names),
                all == rows@,
                fields_ok(*src, names),
                n == taken(all.len() as int, limit),
                n <= all.len(),
                types.contains(ColType::Boolean) ==> n <= row_limit(),
                i <= n,
                rest@ == all.subrange(i as int, all.len() as int).reverse(),
                t.wf(),
                t.header_names() == names,
                t.columns().len() == names.len(),
                types.len() == names.len(),
                forall|c: int| 0 <= c < names.len() ==> col_type(#[trigger] t.columns()[c]) == types[c],
                t.strategies() == Seq::new(names.len(), |_c: int| CompressType::Uncompressed),
                t.row_count() == i,
                forall|c: int| 0 <= c < names.len() ==> (#[trigger] t.columns()[c]).row_count() == i,
                t.aggregate_values_view() == Seq::<(Seq<char>, Val)>::empty(),
                t.computation_values_view() == Seq::<(Seq<char>, Val)>::empty(),
                forall|j: int, c: int| 0 <= j < i && 0 <= c < names.len() ==> #[trigger] cell_reads_as(t.columns()[c], j, all[j]@[c]),
                forall|j: int| 0 <= j < i ==> fits_types(types, #[trigger] all[j]@),
            decreases n - i,
        {
            let row = rest.pop().unwrap();
            proof {
                assert(row == all[i as int]);
                assert(rest@ =~= all.subrange(i + 1, all.len() as int).reverse());
            }
            let ghost before = t;
            let ghost data = row@;
            proof {
                t.lemma_wf();
                assert forall|c: int| 0 <= c < t.columns().len() implies (#[trigger] t.columns()[c]).has_room() by {
                    t.columns()[c].lemma_room();
                    assert(t.strategies()[c] == CompressType::Uncompressed);
                    if types[c] == ColType::Boolean {
                        assert(types.contains(ColType::Boolean));
                    }
                }
            }
            match t.add_row(row) {
                Ok(()) => {},
                Err(e) => {
                    proof {
                        lemma_fits_types(before, types, data);
                        if data.len() == types.len() {
                            let kc = choose|kc: int| #[trigger] first_rejected(before.columns(), data, kc)
                                && e@ == type_mismatch_msg(col_type(before.columns()[kc]));
                            assert(!accepts(types[kc], data[kc]));
                            assert forall|j: int| 0 <= j < kc implies accepts(types[j], #[trigger] data[j]) by {
                                assert(accepts(col_type(before.columns()[j]), data[j]));
                            }
                        }
                        assert(types_refusal(types, all[i as int]@, e@));
                    }
                    let r = QueryResult::Error(e);
                    proof {
                        assert(!fits_types(types, all[i as int]@));
                        assert(!(forall|j: int| 0 <= j < n ==> fits_types(types, #[trigger] all[j]@)));
                        assert(projection_outcome(*src, names, all, limit, r));
                    }
                    return r;
                },
            }
            proof {
                lemma_fits_types(before, types, data);
            }
            proof {
                assert forall|j: int, c: int| 0 <= j < i + 1 && 0 <= c < names.len() implies #[trigger] cell_reads_as(t.columns()[c], j, all[j]@[c]) by {
                    if j < i {
                        assert(cell(t.columns()[c], j) == cell(before.columns()[c], j));
                        assert(cell_reads_as(before.columns()[c], j, all[j]@[c]));
                    }
                }
            }
            i += 1;
        }
        QueryResult::Table(t)
    }

    /// Changes how the columns `fields` of table `table_name` are stored:
    /// column `fields[k]` gets strategy `strats[k]`, in order, stopping at the
    /// first step that would give a column a strategy its type does not
    /// support (that step changes nothing). Every column keeps standing for
    /// the values it held.
    pub fn compress(&mut self, table_name: &String, fields: &Vec<String>, strats: &Vec<CompressType>) -> (r: QueryResult)
        requires
            old(self).wf(),
            forall|t: int| #[trigger] first_index_of(old(self).names(), table_name@, t) ==> fields@.len() == strats@.len()
                && forall|k: int| 0 <= k < fields@.len() ==> has_name(old(self).tables()[t].header_names(), #[trigger] fields@[k]@),
            forall|t: int, k: int| #[trigger] first_index_of(old(self).names(), table_name@, t) && 0 <= k < fields@.len()
                && 0 <= k < strats@.len() && (strats@[k] == CompressType::BitMap || strats@[k] == CompressType::Xor)
                ==> #[trigger] column_named(old(self).tables()[t], fields@[k]@).row_count() <= row_limit(),
        ensures
            final(self).wf(),
            final(self).names() == old(self).names(),
            final(self).constants() == old(self).constants(),
            final(self).calculated() == old(self).calculated(),
            !has_name(old(self).names(), table_name@) ==> (r matches QueryResult::Error(e)
                && e@ == "Table "@ + table_name@ + " does not exist"@ && final(self).tables() == old(self).tables()),
            forall|t: int| #[trigger] first_index_of(old(self).names(), table_name@, t) ==> {
                let t0 = old(self).tables()[t];
                let t1 = final(self).tables()[t];
                let cols = positions(t0, texts(fields@));
                let n = fields@.len() as int;
                &&& final(self).tables() == old(self).tables().update(t, t1)
                &&& same_data(t1, t0)
                &&& (forall|k: int| 0 <= k < n ==> !step_fails(t0, cols, strats@, k)) ==> (r matches QueryResult::Success(m)
                    && m@ == "Compression success on "@ + table_name@
                    && t1.strategies() == applied(t0.strategies(), cols, strats@, n))
                &&& !(forall|k: int| 0 <= k < n ==> !step_fails(t0, cols, strats@, k)) ==> exists|k: int|
                    0 <= k < n && #[trigger] step_fails(t0, cols, strats@, k)
                    && (forall|j: int| 0 <= j < k ==> !step_fails(t0, cols, strats@, j))
                    && (r matches QueryResult::Error(e) && e@ == unsupported_msg(col_type(t0.columns()[cols[k]]), strats@[k]))
                    && t1.strategies() == applied(t0.strategies(), cols, strats@, k)
            },
    {
        let table_idx = match self.get_table_index(table_name) {
            Ok(i) => i,
            Err(e) => return QueryResult::Error(e),
        };
        let ghost t0 = self.tables()[table_idx as int];
        let ghost names = texts(fields@);
        let ghost cols = positions(t0, names);
        proof {
            assert forall|t: int| #[trigger] first_index_of(self.names(), table_name@, t) implies t == table_idx by {}
            assert(t0.wf());
            assert forall|c: int, row: int| 0 <= c < t0.columns().len() && 0 <= row < t0.row_count()
                implies #[trigger] cell_reads_as_cell(t0.columns()[c], t0.columns()[c], row) by {}
        }
        let mut i: usize = 0;
        while i < fields.len()
            invariant
                old(self).wf(),
                self.wf(),
                table_idx < self.tables().len(),
                first_index_of(old(self).names(), table_name@, table_idx as int),
                fields@.len() == strats@.len(),
                forall|k: int| 0 <= k < fields@.len() ==> has_name(t0.header_names(), #[trigger] fields@[k]@),
                t0 == old(self).tables()[table_idx as int],
                names == texts(fields@),
                cols == positions(t0, names),
                i <= fields@.len(),
                self.names() == old(self).names(),
                self.constants() == old(self).constants(),
                self.calculated() == old(self).calculated(),
                self.tables() == old(self).tables().update(table_idx as int, self.tables()[table_idx as int]),
                same_data(self.tables()[table_idx as int], t0),
                self.tables()[table_idx as int].strategies() == applied(t0.strategies(), cols, strats@, i as int),
                forall|c: int| 0 <= c < t0.columns().len() ==> (#[trigger] self.tables()[table_idx as int].columns()[c]).row_count()
                    == t0.columns()[c].row_count(),
                forall|k: int| 0 <= k < fields@.len() && (strats@[k] == CompressType::BitMap || strats@[k] == CompressType::Xor)
                    ==> #[trigger] column_named(t0, fields@[k]@).row_count() <= row_limit(),
                forall|k: int| 0 <= k < i ==> !step_fails(t0, cols, strats@, k),
            decreases fields@.len() - i,
        {
            let ghost cur = self.tables()[table_idx as int];
            assert(cur.wf());
            proof {
                cur.lemma_wf();
            }
            let col_idx = match self.tables[table_idx].header_idx(&fields[i]) {
                Ok(c) => c,
                Err(e) => {
                    assert(has_name(t0.header_names(), fields@[i as int]@));
                    return QueryResult::Error(e);
                },
            };
            proof {
                let c2 = choose|c: int| first_index_of(t0.header_names(), names[i as int], c);
                assert(names[i as int] == fields@[i as int]@);
                assert(first_index_of(t0.header_names(), names[i as int], col_idx as int));
                assert(first_index_of(t0.header_names(), names[i as int], c2));
                if c2 < col_idx {
                    assert(t0.header_names()[c2] == names[i as int]);
                } else if col_idx < c2 {
                    assert(t0.header_names()[col_idx as int] == names[i as int]);
                }
                assert(cols[i as int] == col_idx);
                assert(column_named(t0, fields@[i as int]@) == t0.columns()[col_idx as int]);
            }
            let r = self.tables[table_idx].recompress(col_idx, strats[i]);
            proof {
                let nt = self.tables()[table_idx as int];
                assert forall|j: int| 0 <= j < self.tables@.len() implies (#[trigger] self.tables@[j]).wf() by {
                    if j != table_idx {
                        assert(self.tables@[j] == old(self).tables@[j]);
                    }
                }
                assert forall|j: int, k: int| 0 <= j < k < self.table_names@.len() implies self.table_names@[j]@ != self.table_names@[k]@ by {
                    assert(old(self).wf());
                }
                assert forall|c: int, row: int| 0 <= c < t0.columns().len() && 0 <= row < t0.row_count()
                    implies #[trigger] cell_reads_as_cell(nt.columns()[c], t0.columns()[c], row) by {
                    assert(cell_reads_as_cell(cur.columns()[c], t0.columns()[c], row));
                    if c == col_idx {
                        assert(cell_reads_as_cell(nt.columns()[c], cur.columns()[c], row));
                        lemma_reads_as_cell_trans(nt.columns()[c], cur.columns()[c], t0.columns()[c], row);
                    } else {
                        assert(nt.columns()[c] == cur.columns()[c]);
                    }
                }
                assert forall|c: int| 0 <= c < t0.columns().len() implies col_type(#[trigger] nt.columns()[c]) == col_type(t0.columns()[c]) by {
                    if c != col_idx {
                        assert(nt.columns()[c] == cur.columns()[c]);
                    }
                }
                assert(col_type(t0.columns()[col_idx as int]) == col_type(cur.columns()[col_idx as int]));
                assert(applied(t0.strategies(), cols, strats@, i + 1) == cur.strategies().update(col_idx as int, strats@[i as int]));
            }
            match r {
                Ok(()) => {},
                Err(e) => {
                    assert(step_fails(t0, cols, strats@, i as int));
                    return QueryResult::Error(e);
                },
            }
            assert(!step_fails(t0, cols, strats@, i as int));
            i += 1;
        }
        QueryResult::Success(String::from_str("Compression success on ").concat(table_name.as_str()))
    }

    /// For each column of table `table_idx`, where its value comes from in an
    /// `INSERT` that names the fields `fields` (or none).
    pub fn insert_plan(&self, table_idx: usize, fields: &Option<Vec<String>>) -> (r: Vec<CellSource>)
        requires
            self.wf(),
            table_idx < self.tables().len(),
            self.tables()[table_idx as int].columns().len() <= self.calculated()[table_idx as int].len(),
        ensures
            r@.len() == self.tables()[table_idx as int].header_names().len(),
            forall|i: int| 0 <= i < r@.len() ==> #[trigger] r@[i] == source_of(
                self.calculated()[table_idx as int],
                self.tables()[table_idx as int].header_names(),
                opt_texts(*fields),
                i,
            ),
    {
        let table = &self.tables[table_idx];
        let headers = table.get_headers();
        proof {
            table.lemma_wf();
        }
        let ghost hs = table.header_names();
        let ghost calc = self.calculated()[table_idx as int];
        let mut out: Vec<CellSource> = Vec::new();
        let mut i: usize = 0;
        while i < headers.len()
            invariant
                hs == texts(headers@),
                hs == self.tables()[table_idx as int].header_names(),
                calc == self.calculated()[table_idx as int],
                table_idx < self.calculated@.len(),
                self.calculated@[table_idx as int]@ == calc,
                hs.len() <= calc.len(),
                i <= headers@.len(),
                out@.len() == i,
                forall|j: int| 0 <= j < i ==> #[trigger] out@[j] == source_of(calc, hs, opt_texts(*fields), j),
            decreases headers@.len() - i,
        {
            let src = if self.calculated[table_idx][i].is_some() {
                CellSource::Calculated
            } else {
                match fields {
                    None => CellSource::Given(i),
                    Some(f) => {
                        let found = position_of(f, &headers[i]);
                        proof {
                            let fs = texts(f@);
                            assert(hs[i as int] == headers@[i as int]@);
                            if let Some(k) = found {
                                let c = choose|c: int| first_index_of(fs, hs[i as int], c);
                                lemma_has_first_index(fs, hs[i as int]);
                                if c < k {
                                    assert(fs[c] == hs[i as int]);
                                } else if k < c {
                                    assert(fs[k as int] == hs[i as int]);
                                }
                            }
                        }
                        match found {
                            Some(k) => CellSource::Given(k),
                            None => CellSource::Missing,
                        }
                    },
                }
            };
            out.push(src);
            i += 1;
        }
        out
    }
}

} // verus!
