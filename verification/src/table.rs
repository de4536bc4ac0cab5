//! Tables: named, typed columns of equal length, with the aggregates and
//! computations defined on them.
use vstd::prelude::*;
use std::rc::Rc;
use crate::column::{
    BitMap, BoolCol, BoolColumn, Column, ColumnInterface, NumColumn, RunLength, StrColumn,
    Uncompressed, XorCol, reads_as, row_limit, insert_all,
};
use crate::env::{Environment, names_of, pushed_all, rc_clone};
use crate::num::Num;
use crate::types::{ColType, CompressType, Expr, Val, ctype_name, str_of_ctype};

verus! {

/// The type of the values a column holds.
pub open spec fn col_type(c: Column) -> ColType {
    match c {
        Column::Number(_) => ColType::Number,
        Column::Boolean(_) => ColType::Boolean,
        Column::String(_) => ColType::String,
    }
}

/// The value of one row of a column.
pub open spec fn cell(c: Column, r: int) -> Val {
    match c {
        Column::Number(n) => match n.items()[r] {
            Some(x) => Val::NumVal(x),
            None => Val::NullVal,
        },
        Column::Boolean(b) => match b.items()[r] {
            Some(x) => Val::BoolVal(x),
            None => Val::NullVal,
        },
        Column::String(s) => match s.items()[r] {
            Some(x) => Val::StrVal(x),
            None => Val::NullVal,
        },
    }
}

/// A column of type `t` can hold `v`: a value of its type, or null.
pub open spec fn accepts(t: ColType, v: Val) -> bool {
    match (t, v) {
        (_, Val::NullVal) => true,
        (ColType::Number, Val::NumVal(_)) => true,
        (ColType::Boolean, Val::BoolVal(_)) => true,
        (ColType::String, Val::StrVal(_)) => true,
        _ => false,
    }
}

/// The value `v` as an entry of a number column.
pub open spec fn as_num(v: Val) -> Option<Num> {
    match v {
        Val::NumVal(x) => Some(x),
        _ => None,
    }
}

/// The value `v` as an entry of a boolean column.
pub open spec fn as_bool(v: Val) -> Option<bool> {
    match v {
        Val::BoolVal(x) => Some(x),
        _ => None,
    }
}

/// The value `v` as an entry of a string column.
pub open spec fn as_str(v: Val) -> Option<String> {
    match v {
        Val::StrVal(x) => Some(x),
        _ => None,
    }
}

/// Row `r` of column `c` stands for the value `v` (it is `v`, or `==` to it).
pub open spec fn cell_reads_as(c: Column, r: int, v: Val) -> bool {
    match c {
        Column::Number(n) => reads_as(n.items()[r], as_num(v)),
        Column::Boolean(b) => reads_as(b.items()[r], as_bool(v)),
        Column::String(s) => reads_as(s.items()[r], as_str(v)),
    }
}

/// Row `r` of column `a` stands for row `r` of column `b`.
pub open spec fn cell_reads_as_cell(a: Column, b: Column, r: int) -> bool {
    match (a, b) {
        (Column::Number(x), Column::Number(y)) => reads_as(x.items()[r], y.items()[r]),
        (Column::Boolean(x), Column::Boolean(y)) => reads_as(x.items()[r], y.items()[r]),
        (Column::String(x), Column::String(y)) => reads_as(x.items()[r], y.items()[r]),
        _ => false,
    }
}

/// A column of type `t` can be stored with strategy `s`: booleans only
/// uncompressed, strings not with XOR.
pub open spec fn supports(t: ColType, s: CompressType) -> bool {
    match t {
        ColType::Boolean => s == CompressType::Uncompressed,
        ColType::String => s != CompressType::Xor,
        ColType::Number => true,
    }
}

/// The error for a strategy that a column type does not support.
pub open spec fn unsupported_msg(t: ColType, s: CompressType) -> Seq<char> {
    match t {
        ColType::Boolean => "Boolean columns do not implement compression type "@ + ctype_name(s),
        _ => "String columns do not implement compression type "@ + ctype_name(s),
    }
}

/// The error for a value that a column type cannot hold.
pub open spec fn type_mismatch_msg(t: ColType) -> Seq<char> {
    match t {
        ColType::Number => "Cannot insert non-number into a number column"@,
        ColType::Boolean => "Cannot insert non-boolean into a boolean column"@,
        ColType::String => "Cannot insert non-string into a string column"@,
    }
}

/// `name` is among `names`.
pub open spec fn has_name(names: Seq<Seq<char>>, name: Seq<char>) -> bool {
    exists|i: int| 0 <= i < names.len() && names[i] == name
}

/// The first index of `name` among `names`.
pub open spec fn first_index_of(names: Seq<Seq<char>>, name: Seq<char>, i: int) -> bool {
    &&& 0 <= i < names.len()
    &&& names[i] == name
    &&& forall|j: int| 0 <= j < i ==> names[j] != name
}

/// A table.
pub struct Table {
    table: Vec<Column>,
    headers: Vec<String>,
    size: usize,
    aggregates: Vec<(String, Expr, Option<Expr>)>,
    aggregate_values: Vec<Rc<Val>>,
    computations: Vec<(String, Expr)>,
    computation_values: Vec<Rc<Val>>,
    compression_strats: Vec<CompressType>,
}

impl Table {
    /// The column names, in order.
    pub closed spec fn header_names(&self) -> Seq<Seq<char>> {
        self.headers@.map_values(|h: String| h@)
    }

    /// The columns, in order.
    pub closed spec fn columns(&self) -> Seq<Column> {
        self.table@
    }

    /// The storage strategy recorded for each column.
    pub closed spec fn strategies(&self) -> Seq<CompressType> {
        self.compression_strats@
    }

    /// The number of rows.
    pub closed spec fn row_count(&self) -> nat {
        self.size as nat
    }

    /// The aggregates' names and current values, in order of definition.
    pub closed spec fn aggregate_values_view(&self) -> Seq<(Seq<char>, Val)> {
        Seq::new(
            self.aggregates@.len(),
            |i: int| (self.aggregates@[i].0@, *self.aggregate_values@[i]),
        )
    }

    /// The aggregates' update and initial expressions, in order of
    /// definition.
    pub closed spec fn aggregate_defs(&self) -> Seq<(Expr, Option<Expr>)> {
        self.aggregates@.map_values(|a: (String, Expr, Option<Expr>)| (a.1, a.2))
    }

    /// The computations' names and current values, in order of definition.
    pub closed spec fn computation_values_view(&self) -> Seq<(Seq<char>, Val)> {
        Seq::new(
            self.computations@.len(),
            |i: int| (self.computations@[i].0@, *self.computation_values@[i]),
        )
    }

    /// The computations' expressions, in order of definition.
    pub closed spec fn computation_defs(&self) -> Seq<Expr> {
        self.computations@.map_values(|c: (String, Expr)| c.1)
    }

    /// The table's invariant: one name, one strategy (the column's storage
    /// scheme) and one column per column, distinct names, and every column at
    /// least `row_count()` rows long (a row refused part way leaves the values
    /// appended before it in their columns).
    pub closed spec fn wf(&self) -> bool {
        &&& self.headers@.len() == self.table@.len()
        &&& self.compression_strats@.len() == self.table@.len()
        &&& forall|c: int| 0 <= c < self.table@.len() ==> #[trigger] self.compression_strats@[c] == self.table@[c].scheme()
        &&& forall|c: int| 0 <= c < self.table@.len() ==> (#[trigger] self.table@[c]).wf()
        &&& forall|c: int| 0 <= c < self.table@.len() ==> (#[trigger] self.table@[c]).row_count() >= self.size
        &&& forall|i: int, j: int| 0 <= i < j < self.headers@.len() ==> self.headers@[i]@ != self.headers@[j]@
        &&& self.aggregate_values@.len() == self.aggregates@.len()
        &&& self.computation_values@.len() == self.computations@.len()
    }

    /// What a well-formed table guarantees of its parts: one name and one
    /// strategy (its storage scheme) per column, each column well formed and
    /// at least `row_count()` rows long, and distinct names.
    pub proof fn lemma_wf(&self)
        requires
            self.wf(),
        ensures
            self.header_names().len() == self.columns().len(),
            self.strategies().len() == self.columns().len(),
            forall|c: int| 0 <= c < self.columns().len() ==> #[trigger] self.strategies()[c] == self.columns()[c].scheme(),
            forall|c: int| 0 <= c < self.columns().len() ==> (#[trigger] self.columns()[c]).wf()
                && self.columns()[c].row_count() >= self.row_count(),
            forall|i: int, j: int| 0 <= i < j < self.header_names().len() ==> self.header_names()[i] != self.header_names()[j],
    {
    }

    /// An empty table: no column, no row, no aggregate, no computation.
    pub fn new() -> (r: Table)
        ensures
            r.wf(),
            r.header_names() == Seq::<Seq<char>>::empty(),
            r.columns() == Seq::<Column>::empty(),
            r.strategies() == Seq::<CompressType>::empty(),
            r.row_count() == 0,
            r.aggregate_values_view() == Seq::<(Seq<char>, Val)>::empty(),
            r.computation_values_view() == Seq::<(Seq<char>, Val)>::empty(),
    {
        let r = Table {
            table: Vec::new(),
            headers: Vec::new(),
            size: 0,
            aggregates: Vec::new(),
            aggregate_values: Vec::new(),
            computations: Vec::new(),
            computation_values: Vec::new(),
            compression_strats: Vec::new(),
        };
        assert(r.header_names() =~= Seq::<Seq<char>>::empty());
        assert(r.aggregate_values_view() =~= Seq::<(Seq<char>, Val)>::empty());
        assert(r.computation_values_view() =~= Seq::<(Seq<char>, Val)>::empty());
        r
    }
}


/// A column of type `t` holding `n` nulls, stored plainly (booleans packed).
fn null_column(t: ColType, n: usize) -> (c: Column)
    requires
        t == ColType::Boolean ==> n <= row_limit(),
    ensures
        c.wf(),
        col_type(c) == t,
        c.scheme() == CompressType::Uncompressed,
        c.row_count() == n,
        forall|r: int| 0 <= r < n ==> cell(c, r) == Val::NullVal,
{
    match t {
        ColType::Boolean => {
            let mut col = BoolCol::new();
            let mut i: usize = 0;
            while i < n
                invariant
                    i <= n,
                    n <= row_limit(),
                    col.wf(),
                    col.items() == Seq::new(i as nat, |_r: int| None::<bool>),
                decreases n - i,
            {
                proof {
                    col.lemma_room();
                }
                col.insert(None);
                i += 1;
                assert(col.items() =~= Seq::new(i as nat, |_r: int| None::<bool>));
            }
            Column::Boolean(BoolColumn::Packed(col))
        },
        ColType::Number => {
            let mut col: Uncompressed<Num> = Uncompressed::new();
            let mut i: usize = 0;
            while i < n
                invariant
                    i <= n,
                    col.wf(),
                    col.items() == Seq::new(i as nat, |_r: int| None::<Num>),
                decreases n - i,
            {
                proof {
                    col.lemma_room();
                }
                col.insert(None);
                i += 1;
                assert(col.items() =~= Seq::new(i as nat, |_r: int| None::<Num>));
            }
            Column::Number(NumColumn::Uncompressed(col))
        },
        ColType::String => {
            let mut col: Uncompressed<String> = Uncompressed::new();
            let mut i: usize = 0;
            while i < n
                invariant
                    i <= n,
                    col.wf(),
                    col.items() == Seq::new(i as nat, |_r: int| None::<String>),
                decreases n - i,
            {
                proof {
                    col.lemma_room();
                }
                col.insert(None);
                i += 1;
                assert(col.items() =~= Seq::new(i as nat, |_r: int| None::<String>));
            }
            Column::String(StrColumn::Uncompressed(col))
        },
    }
}

/// Whether `name` is in `names`, and where it first occurs.
fn find_name(names: &Vec<String>, name: &String) -> (r: Option<usize>)
    ensures
        r is None == !has_name(names@.map_values(|h: String| h@), name@),
        r matches Some(i) ==> first_index_of(names@.map_values(|h: String| h@), name@, i as int),
{
    let ghost hs = names@.map_values(|h: String| h@);
    let mut i: usize = 0;
    while i < names.len()
        invariant
            hs == names@.map_values(|h: String| h@),
            i <= names@.len(),
            forall|j: int| 0 <= j < i ==> hs[j] != name@,
        decreases names@.len() - i,
    {
        if names[i] == *name {
            assert(hs[i as int] == name@);
            return Some(i);
        }
        i += 1;
    }
    None
}

impl Table {
    /// The index of the column called `name`; an error when there is none.
    pub fn header_idx(&self, name: &String) -> (r: Result<usize, String>)
        ensures
            r is Err == !has_name(self.header_names(), name@),
            r matches Ok(i) ==> first_index_of(self.header_names(), name@, i as int),
            r matches Err(e) ==> e@ == "Invalid column name "@ + name@,
    {
        match find_name(&self.headers, name) {
            Some(i) => Ok(i),
            None => Err(String::from_str("Invalid column name ").concat(name.as_str())),
        }
    }

    /// The column called `name`; an error when there is none.
    pub fn get_column(&self, name: &String) -> (r: Result<&Column, String>)
        requires
            self.wf(),
        ensures
            r is Err == !has_name(self.header_names(), name@),
            r matches Ok(c) ==> exists|i: int| #[trigger] first_index_of(self.header_names(), name@, i) && *c == self.columns()[i],
            r matches Err(e) ==> e@ == "Invalid column name "@ + name@,
    {
        match self.header_idx(name) {
            Ok(i) => {
                assert(first_index_of(self.header_names(), name@, i as int));
                let c = &self.table[i];
                assert(*c == self.columns()[i as int]);
                Ok(c)
            },
            Err(e) => Err(e),
        }
    }

    /// The column names, in order.
    pub fn get_headers(&self) -> (r: &Vec<String>)
        ensures
            r@.map_values(|h: String| h@) == self.header_names(),
    {
        &self.headers
    }

    /// Whether every column can take one more row.
    pub fn has_room(&self) -> (r: bool)
        requires
            self.wf(),
        ensures
            r == (forall|c: int| 0 <= c < self.columns().len() ==> (#[trigger] self.columns()[c]).has_room()),
    {
        let mut c: usize = 0;
        while c < self.table.len()
            invariant
                self.wf(),
                c <= self.table@.len(),
                forall|k: int| 0 <= k < c ==> (#[trigger] self.table@[k]).has_room(),
            decreases self.table@.len() - c,
        {
            if !self.table[c].room() {
                assert(!self.columns()[c as int].has_room());
                return false;
            }
            c += 1;
        }
        true
    }

    /// The number of rows column `c` holds.
    pub fn column_rows(&self, c: usize) -> (r: usize)
        requires
            self.wf(),
            c < self.columns().len(),
        ensures
            r == self.columns()[c as int].row_count(),
    {
        let n = self.table[c].len();
        match &self.table[c] {
            Column::Number(NumColumn::Xor(_)) => n - 9,
            _ => n,
        }
    }

    /// The type of each column, in order.
    pub fn get_col_types(&self) -> (r: Vec<ColType>)
        ensures
            r@.len() == self.columns().len(),
            forall|c: int| 0 <= c < r@.len() ==> #[trigger] r@[c] == col_type(self.columns()[c]),
    {
        let mut out: Vec<ColType> = Vec::new();
        let mut c: usize = 0;
        while c < self.table.len()
            invariant
                c <= self.table@.len(),
                out@.len() == c,
                forall|k: int| 0 <= k < c ==> #[trigger] out@[k] == col_type(self.table@[k]),
            decreases self.table@.len() - c,
        {
            let t = match &self.table[c] {
                Column::Number(_) => ColType::Number,
                Column::Boolean(_) => ColType::Boolean,
                Column::String(_) => ColType::String,
            };
            out.push(t);
            c += 1;
        }
        out
    }

    /// The number of rows.
    pub fn len(&self) -> (r: usize)
        ensures
            r == self.row_count(),
    {
        self.size
    }
}

/// A number column holding the same rows as `col`, stored with `strategy`.
fn restore_num(col: &NumColumn, strategy: CompressType) -> (r: NumColumn)
    requires
        col.wf(),
        strategy == CompressType::BitMap || strategy == CompressType::Xor ==> col.items().len() <= row_limit(),
    ensures
        r.wf(),
        r.scheme() == strategy,
        crate::column::reads_all_as(r.items(), col.items()),
        strategy == CompressType::Uncompressed || strategy == CompressType::Xor ==> r.items() == col.items(),
{
    let vals = col.uncompress();
    let _n = vals.len();
    match strategy {
        CompressType::BitMap => {
            let mut c: BitMap<Num> = BitMap::new();
            insert_all(&mut c, &vals);
            NumColumn::BitMap(c)
        },
        CompressType::RunLength => {
            let mut c: RunLength<Num> = RunLength::new();
            insert_all(&mut c, &vals);
            NumColumn::RunLength(c)
        },
        CompressType::Xor => {
            let mut c = XorCol::new();
            insert_all(&mut c, &vals);
            NumColumn::Xor(c)
        },
        CompressType::Uncompressed => {
            let mut c: Uncompressed<Num> = Uncompressed::new();
            insert_all(&mut c, &vals);
            NumColumn::Uncompressed(c)
        },
    }
}

/// A string column holding the same rows as `col`, stored with `strategy`,
/// which is not XOR.
fn restore_str(col: &StrColumn, strategy: CompressType) -> (r: StrColumn)
    requires
        col.wf(),
        strategy == CompressType::BitMap ==> col.items().len() <= row_limit(),
        strategy != CompressType::Xor,
    ensures
        r.wf(),
        r.scheme() == strategy,
        crate::column::reads_all_as(r.items(), col.items()),
        strategy == CompressType::Uncompressed ==> r.items() == col.items(),
{
    let vals = col.uncompress();
    let _n = vals.len();
    match strategy {
        CompressType::BitMap => {
            let mut c: BitMap<String> = BitMap::new();
            insert_all(&mut c, &vals);
            StrColumn::BitMap(c)
        },
        CompressType::RunLength => {
            let mut c: RunLength<String> = RunLength::new();
            insert_all(&mut c, &vals);
            StrColumn::RunLength(c)
        },
        CompressType::Uncompressed => {
            let mut c: Uncompressed<String> = Uncompressed::new();
            insert_all(&mut c, &vals);
            StrColumn::Uncompressed(c)
        },
        CompressType::Xor => {
            let mut c: Uncompressed<String> = Uncompressed::new();
            insert_all(&mut c, &vals);
            StrColumn::Uncompressed(c)
        },
    }
}

/// The storage scheme of `c`.
fn scheme_of(c: &Column) -> (r: CompressType)
    ensures
        r == c.scheme(),
{
    match c {
        Column::Number(NumColumn::Uncompressed(_)) => CompressType::Uncompressed,
        Column::Number(NumColumn::RunLength(_)) => CompressType::RunLength,
        Column::Number(NumColumn::BitMap(_)) => CompressType::BitMap,
        Column::Number(NumColumn::Xor(_)) => CompressType::Xor,
        Column::Boolean(_) => CompressType::Uncompressed,
        Column::String(StrColumn::Uncompressed(_)) => CompressType::Uncompressed,
        Column::String(StrColumn::RunLength(_)) => CompressType::RunLength,
        Column::String(StrColumn::BitMap(_)) => CompressType::BitMap,
    }
}

impl Table {
    /// Changes how column `col_idx` is stored, re-inserting its rows under
    /// the new strategy (into a plain or XOR column, exactly as they were). Booleans only support `none` and strings do not
    /// support `xor`: asking for another strategy is an error that changes
    /// nothing.
    pub fn recompress(&mut self, col_idx: usize, strategy: CompressType) -> (r: Result<(), String>)
        requires
            old(self).wf(),
            col_idx < old(self).columns().len(),
            strategy == CompressType::BitMap || strategy == CompressType::Xor ==> old(self).columns()[col_idx as int].row_count() <= row_limit(),
        ensures
            final(self).wf(),
            r is Ok <==> (old(self).strategies()[col_idx as int] == strategy || supports(
                col_type(old(self).columns()[col_idx as int]),
                strategy,
            )),
            r matches Err(e) ==> e@ == unsupported_msg(col_type(old(self).columns()[col_idx as int]), strategy)
                && *final(self) == *old(self),
            old(self).strategies()[col_idx as int] == strategy ==> *final(self) == *old(self),
            r is Ok ==> {
                &&& final(self).header_names() == old(self).header_names()
                &&& final(self).row_count() == old(self).row_count()
                &&& final(self).aggregate_values_view() == old(self).aggregate_values_view()
                &&& final(self).aggregate_defs() == old(self).aggregate_defs()
                &&& final(self).computation_values_view() == old(self).computation_values_view()
                &&& final(self).computation_defs() == old(self).computation_defs()
                &&& final(self).strategies() == old(self).strategies().update(col_idx as int, strategy)
                &&& final(self).columns().len() == old(self).columns().len()
                &&& forall|c: int| 0 <= c < old(self).columns().len() && c != col_idx ==> #[trigger] final(self).columns()[c] == old(self).columns()[c]
                &&& final(self).columns()[col_idx as int].scheme() == strategy
                &&& final(self).columns()[col_idx as int].row_count() == old(self).columns()[col_idx as int].row_count()
                &&& col_type(final(self).columns()[col_idx as int]) == col_type(old(self).columns()[col_idx as int])
                &&& forall|row: int| 0 <= row < old(self).row_count() ==> #[trigger] cell_reads_as_cell(
                    final(self).columns()[col_idx as int],
                    old(self).columns()[col_idx as int],
                    row,
                )
                &&& (strategy == CompressType::Uncompressed || strategy == CompressType::Xor) ==> forall|row: int|
                    0 <= row < old(self).row_count() ==> #[trigger] cell(final(self).columns()[col_idx as int], row) == cell(
                    old(self).columns()[col_idx as int],
                    row,
                )
            },
    {
        let ghost old_col = self.table@[col_idx as int];
        proof {
            assert(old_col.wf());
            assert(old_col.row_count() >= self.size);
            assert forall|row: int| 0 <= row < self.size implies #[trigger] cell_reads_as_cell(old_col, old_col, row) by {}
        }
        if self.compression_strats[col_idx] == strategy {
            assert(self.compression_strats@ =~= self.compression_strats@.update(col_idx as int, strategy));
            return Ok(());
        }
        let new_col = match &self.table[col_idx] {
            Column::Boolean(_) => {
                return Err(String::from_str("Boolean columns do not implement compression type ").concat(str_of_ctype(strategy).as_str()));
            },
            Column::Number(curr) => Column::Number(restore_num(curr, strategy)),
            Column::String(curr) => {
                match strategy {
                    CompressType::Xor => {
                        return Err(String::from_str("String columns do not implement compression type ").concat(str_of_ctype(strategy).as_str()));
                    },
                    _ => Column::String(restore_str(curr, strategy)),
                }
            },
        };
        self.compression_strats.set(col_idx, strategy);
        self.table.set(col_idx, new_col);
        proof {
            assert forall|c: int| 0 <= c < self.table@.len() implies (#[trigger] self.table@[c]).wf() by {
                if c != col_idx {
                    assert(self.table@[c] == old(self).table@[c]);
                }
            }
            assert forall|c: int| 0 <= c < self.table@.len() implies (#[trigger] self.table@[c]).row_count() >= self.size by {
                if c != col_idx {
                    assert(self.table@[c] == old(self).table@[c]);
                }
            }
            assert forall|c: int| 0 <= c < self.table@.len() implies #[trigger] self.compression_strats@[c] == self.table@[c].scheme() by {
                if c != col_idx {
                    assert(self.table@[c] == old(self).table@[c]);
                }
            }
        }
        Ok(())
    }
}

/// The columns of `t1` are those of `t0` with `data[c]` appended to each
/// column `c` before `k`, the others as they were; names and strategies as
/// they were.
pub open spec fn columns_appended(t0: Table, t1: Table, data: Seq<Val>, k: int) -> bool {
    &&& t1.header_names() == t0.header_names()
    &&& t1.strategies() == t0.strategies()
    &&& t1.columns().len() == t0.columns().len()
    &&& forall|c: int| 0 <= c < t0.columns().len() ==> col_type(#[trigger] t1.columns()[c]) == col_type(t0.columns()[c])
    &&& forall|c: int| k <= c < t0.columns().len() ==> #[trigger] t1.columns()[c] == t0.columns()[c]
    &&& forall|c: int| 0 <= c < k ==> (#[trigger] t1.columns()[c]).row_count() == t0.columns()[c].row_count() + 1
    &&& forall|c: int, row: int| 0 <= c < k && 0 <= row < t0.columns()[c].row_count()
        ==> #[trigger] cell(t1.columns()[c], row) == cell(t0.columns()[c], row)
    &&& forall|c: int| 0 <= c < k ==> #[trigger] cell_reads_as(t1.columns()[c], t0.columns()[c].row_count() as int, data[c])
}

/// `t1` is `t0` with `data[c]` appended to each column `c` before `k` (see
/// `columns_appended`), aggregates and computations as they were.
pub open spec fn appended_upto(t0: Table, t1: Table, data: Seq<Val>, k: int) -> bool {
    &&& columns_appended(t0, t1, data, k)
    &&& t1.aggregate_values_view() == t0.aggregate_values_view()
    &&& t1.aggregate_defs() == t0.aggregate_defs()
    &&& t1.computation_values_view() == t0.computation_values_view()
    &&& t1.computation_defs() == t0.computation_defs()
}

/// Every value of `data` can go into the column at the same place.
pub open spec fn all_accepted(cols: Seq<Column>, data: Seq<Val>) -> bool {
    forall|c: int| 0 <= c < cols.len() ==> accepts(col_type(#[trigger] cols[c]), data[c])
}

/// Column `k` is the first that cannot hold the value at its place.
pub open spec fn first_rejected(cols: Seq<Column>, data: Seq<Val>, k: int) -> bool {
    &&& 0 <= k < cols.len()
    &&& !accepts(col_type(cols[k]), data[k])
    &&& forall|c: int| 0 <= c < k ==> accepts(col_type(#[trigger] cols[c]), data[c])
}

impl Table {
    /// Adds a column called `name` of type `coltype`, null in every existing
    /// row, stored with `compression`. A name already in use is an error and
    /// changes nothing; a strategy the type does not support is an error that
    /// leaves the column added, stored without compression.
    pub fn add_column(&mut self, name: &String, coltype: ColType, compression: CompressType) -> (r: Result<(), String>)
        requires
            old(self).wf(),
            coltype == ColType::Boolean || compression == CompressType::BitMap || compression == CompressType::Xor
                ==> old(self).row_count() <= row_limit(),
        ensures
            final(self).wf(),
            has_name(old(self).header_names(), name@) ==> (r matches Err(e) && e@ == "Duplicate column "@ + name@ && *final(self) == *old(self)),
            !has_name(old(self).header_names(), name@) ==> {
                &&& (r is Ok <==> supports(coltype, compression))
                &&& (r matches Err(e) ==> e@ == unsupported_msg(coltype, compression))
                &&& final(self).header_names() == old(self).header_names().push(name@)
                &&& final(self).row_count() == old(self).row_count()
                &&& final(self).aggregate_values_view() == old(self).aggregate_values_view()
                &&& final(self).aggregate_defs() == old(self).aggregate_defs()
                &&& final(self).computation_values_view() == old(self).computation_values_view()
                &&& final(self).computation_defs() == old(self).computation_defs()
                &&& final(self).strategies() == old(self).strategies().push(
                    if supports(coltype, compression) { compression } else { CompressType::Uncompressed },
                )
                &&& final(self).columns().len() == old(self).columns().len() + 1
                &&& forall|c: int| 0 <= c < old(self).columns().len() ==> #[trigger] final(self).columns()[c] == old(self).columns()[c]
                &&& col_type(final(self).columns().last()) == coltype
                &&& final(self).columns().last().row_count() == old(self).row_count()
                &&& final(self).columns().last().scheme() == final(self).strategies().last()
                &&& forall|row: int| 0 <= row < old(self).row_count() ==> #[trigger] cell(final(self).columns().last(), row) == Val::NullVal
            },
    {
        if let Some(_) = find_name(&self.headers, name) {
            return Err(String::from_str("Duplicate column ").concat(name.as_str()));
        }
        self.push_column(name, null_column(coltype, self.size));
        let last = self.headers.len() - 1;
        let ghost mid = *self;
        let r = self.recompress(last, compression);
        proof {
            assert forall|row: int| 0 <= row < old(self).row_count() implies #[trigger] cell(self.columns().last(), row) == Val::NullVal by {
                assert(cell_reads_as_cell(self.columns()[last as int], mid.columns()[last as int], row));
                assert(cell(mid.columns()[last as int], row) == Val::NullVal);
            }
        }
        r
    }

    /// Appends a column called `name` (not in use) holding `row_count()` rows,
    /// recorded as stored plainly.
    fn push_column(&mut self, name: &String, col: Column)
        requires
            old(self).wf(),
            !has_name(old(self).header_names(), name@),
            col.wf(),
            col.row_count() == old(self).row_count(),
        ensures
            final(self).wf(),
            final(self).header_names() == old(self).header_names().push(name@),
            final(self).columns() == old(self).columns().push(col),
            final(self).strategies() == old(self).strategies().push(col.scheme()),
            final(self).row_count() == old(self).row_count(),
            final(self).aggregate_values_view() == old(self).aggregate_values_view(),
            final(self).aggregate_defs() == old(self).aggregate_defs(),
            final(self).computation_values_view() == old(self).computation_values_view(),
            final(self).computation_defs() == old(self).computation_defs(),
    {
        let sc = scheme_of(&col);
        self.headers.push(name.clone());
        self.table.push(col);
        self.compression_strats.push(sc);
        proof {
            assert(self.header_names() =~= old(self).header_names().push(name@));
            assert forall|i: int, j: int| 0 <= i < j < self.headers@.len() implies self.headers@[i]@ != self.headers@[j]@ by {
                if j == self.headers@.len() - 1 {
                    assert(old(self).header_names()[i] == self.headers@[i]@);
                }
            }
            assert forall|c: int| 0 <= c < self.table@.len() implies (#[trigger] self.table@[c]).wf() by {
                if c < old(self).table@.len() {
                    assert(self.table@[c] == old(self).table@[c]);
                }
            }
            assert forall|c: int| 0 <= c < self.table@.len() implies #[trigger] self.compression_strats@[c] == self.table@[c].scheme() by {
                if c < old(self).table@.len() {
                    assert(self.table@[c] == old(self).table@[c]);
                }
            }
            assert forall|c: int| 0 <= c < self.table@.len() implies (#[trigger] self.table@[c]).row_count() >= self.size by {
                if c < old(self).table@.len() {
                    assert(self.table@[c] == old(self).table@[c]);
                }
            }
        }
    }

    /// Adds `col`, a column already holding a value for every row, called
    /// `name`, then stores it with `compression`. A name already in use, or a
    /// column whose length (as its `len` gives it) is not the table's, is an
    /// error and changes nothing (an XOR column, whose `len` counts nine rows
    /// more than it holds, is always refused so); a strategy the column's type does not
    /// support is an error that leaves the column added, stored as it came.
    pub fn add_populated_column(&mut self, name: &String, col: Column, compression: CompressType) -> (r: Result<(), String>)
        requires
            old(self).wf(),
            col.wf(),
            compression == CompressType::BitMap || compression == CompressType::Xor ==> col.row_count() <= row_limit(),
        ensures
            final(self).wf(),
            has_name(old(self).header_names(), name@) ==> (r matches Err(e) && e@ == "Duplicate column "@ + name@ && *final(self) == *old(self)),
            !has_name(old(self).header_names(), name@) && (col.reported_len() != old(self).row_count() || col.scheme() == CompressType::Xor) ==> (r matches Err(e) && e@ == "Could not insert pre-populated column due to size mismatch "@ + name@ && *final(self) == *old(self)),
            !has_name(old(self).header_names(), name@) && col.reported_len() == old(self).row_count() && col.scheme() != CompressType::Xor ==> {
                &&& (r is Ok <==> supports(col_type(col), compression) || col.scheme() == compression)
                &&& (r matches Err(e) ==> e@ == unsupported_msg(col_type(col), compression))
                &&& final(self).header_names() == old(self).header_names().push(name@)
                &&& final(self).row_count() == old(self).row_count()
                &&& final(self).aggregate_values_view() == old(self).aggregate_values_view()
                &&& final(self).aggregate_defs() == old(self).aggregate_defs()
                &&& final(self).computation_values_view() == old(self).computation_values_view()
                &&& final(self).computation_defs() == old(self).computation_defs()
                &&& final(self).strategies() == old(self).strategies().push(
                    if r is Ok { compression } else { col.scheme() },
                )
                &&& final(self).columns().len() == old(self).columns().len() + 1
                &&& forall|c: int| 0 <= c < old(self).columns().len() ==> #[trigger] final(self).columns()[c] == old(self).columns()[c]
                &&& col_type(final(self).columns().last()) == col_type(col)
                &&& final(self).columns().last().scheme() == final(self).strategies().last()
                &&& forall|row: int| 0 <= row < old(self).row_count() ==> #[trigger] cell_reads_as_cell(final(self).columns().last(), col, row)
            },
    {
        if let Some(_) = find_name(&self.headers, name) {
            return Err(String::from_str("Duplicate column ").concat(name.as_str()));
        }
        let len = col.len();
        if len != self.size || scheme_of(&col) == CompressType::Xor {
            return Err(String::from_str("Could not insert pre-populated column due to size mismatch ").concat(name.as_str()));
        }
        self.push_column(name, col);
        let last = self.headers.len() - 1;
        self.recompress(last, compression)
    }

    /// Appends a row: `data[c]` goes into column `c`, column by column. The
    /// row must have one value per column (otherwise the result is an error
    /// and the table is unchanged). Each value must be null or of its
    /// column's type: at the first that is not, the result is an error, the
    /// columns before it keep the values already appended to them, and the
    /// row count does not change.
    pub fn add_row(&mut self, data: Vec<Val>) -> (r: Result<(), String>)
        requires
            old(self).wf(),
            old(self).row_count() < usize::MAX,
            forall|c: int| 0 <= c < old(self).columns().len() ==> (#[trigger] old(self).columns()[c]).has_room(),
        ensures
            final(self).wf(),
            data@.len() != old(self).columns().len() ==> (r matches Err(e)
                && e@ == "Number of items inserted does not match number of fields"@
                && *final(self) == *old(self)),
            data@.len() == old(self).columns().len() && !all_accepted(old(self).columns(), data@)
                ==> (r is Err && final(self).row_count() == old(self).row_count()
                && exists|k: int| #[trigger] first_rejected(old(self).columns(), data@, k)
                && appended_upto(*old(self), *final(self), data@, k)
                && (r matches Err(e) && e@ == type_mismatch_msg(col_type(old(self).columns()[k])))),
            data@.len() == old(self).columns().len() && all_accepted(old(self).columns(), data@) ==> {
                &&& r is Ok
                &&& final(self).row_count() == old(self).row_count() + 1
                &&& appended_upto(*old(self), *final(self), data@, data@.len() as int)
            },
    {
        if data.len() != self.table.len() {
            return Err(String::from_str("Number of items inserted does not match number of fields"));
        }
        let mut i: usize = 0;
        proof {
            assert(appended_upto(*old(self), *self, data@, 0));
        }
        while i < data.len()
            invariant
                data@.len() == self.table@.len(),
                data@.len() == old(self).table@.len(),
                i <= data@.len(),
                old(self).wf(),
                self.wf(),
                self.size == old(self).size,
                forall|c: int| 0 <= c < old(self).columns().len() ==> (#[trigger] old(self).columns()[c]).has_room(),
                forall|c: int| 0 <= c < i ==> accepts(col_type(#[trigger] old(self).table@[c]), data@[c]),
                appended_upto(*old(self), *self, data@, i as int),
            decreases data@.len() - i,
        {
            let ok = match (&self.table[i], &data[i]) {
                (_, Val::NullVal) => true,
                (Column::Number(_), Val::NumVal(_)) => true,
                (Column::Boolean(_), Val::BoolVal(_)) => true,
                (Column::String(_), Val::StrVal(_)) => true,
                _ => false,
            };
            assert(self.table@[i as int] == old(self).table@[i as int]);
            if !ok {
                assert(first_rejected(old(self).columns(), data@, i as int));
                let msg = match &self.table[i] {
                    Column::Number(_) => String::from_str("Cannot insert non-number into a number column"),
                    Column::Boolean(_) => String::from_str("Cannot insert non-boolean into a boolean column"),
                    Column::String(_) => String::from_str("Cannot insert non-string into a string column"),
                };
                return Err(msg);
            }
            let ghost before = *self;
            self.insert_cell(i, &data[i]);
            proof {
                assert forall|c: int| 0 <= c < self.table@.len() implies (#[trigger] self.table@[c]).wf() by {
                    if c != i {
                        assert(self.table@[c] == before.table@[c]);
                    }
                }
                assert forall|c: int| 0 <= c < self.table@.len() implies (#[trigger] self.table@[c]).row_count() >= self.size by {
                    if c != i {
                        assert(self.table@[c] == before.table@[c]);
                    }
                }
                assert forall|c: int| 0 <= c < self.table@.len() implies #[trigger] self.compression_strats@[c] == self.table@[c].scheme() by {
                    if c != i {
                        assert(self.table@[c] == before.table@[c]);
                    }
                }
                assert forall|c: int| 0 <= c < self.table@.len() implies col_type(#[trigger] self.columns()[c]) == col_type(old(self).columns()[c]) by {
                    if c != i {
                        assert(self.table@[c] == before.table@[c]);
                    }
                }
            }
            i += 1;
        }
        self.size = self.size + 1;
        Ok(())
    }

    /// Appends `v` to column `c`.
    fn insert_cell(&mut self, c: usize, v: &Val)
        requires
            c < old(self).table@.len(),
            old(self).table@[c as int].wf(),
            old(self).table@[c as int].has_room(),
            accepts(col_type(old(self).table@[c as int]), *v),
        ensures
            final(self).size == old(self).size,
            final(self).headers == old(self).headers,
            final(self).compression_strats == old(self).compression_strats,
            final(self).aggregates == old(self).aggregates,
            final(self).aggregate_values == old(self).aggregate_values,
            final(self).computations == old(self).computations,
            final(self).computation_values == old(self).computation_values,
            final(self).table@.len() == old(self).table@.len(),
            forall|k: int| 0 <= k < final(self).table@.len() && k != c ==> #[trigger] final(self).table@[k] == old(self).table@[k],
            final(self).table@[c as int].wf(),
            col_type(final(self).table@[c as int]) == col_type(old(self).table@[c as int]),
            final(self).table@[c as int].scheme() == old(self).table@[c as int].scheme(),
            final(self).table@[c as int].row_count() == old(self).table@[c as int].row_count() + 1,
            forall|row: int| 0 <= row < old(self).table@[c as int].row_count() ==> #[trigger] cell(final(self).table@[c as int], row) == cell(old(self).table@[c as int], row),
            cell_reads_as(final(self).table@[c as int], old(self).table@[c as int].row_count() as int, *v),
    {
        let ghost oc = self.table@[c as int];
        match &mut self.table[c] {
            Column::Number(col) => {
                let x = match v {
                    Val::NumVal(n) => Some(*n),
                    _ => None,
                };
                col.insert(x);
            },
            Column::Boolean(col) => {
                let x = match v {
                    Val::BoolVal(b) => Some(*b),
                    _ => None,
                };
                col.insert(x);
            },
            Column::String(col) => {
                let x = match v {
                    Val::StrVal(s) => Some(s.clone()),
                    _ => None,
                };
                col.insert(x);
            },
        }
        proof {
            let nc = self.table@[c as int];
            assert forall|row: int| 0 <= row < oc.row_count() implies #[trigger] cell(nc, row) == cell(oc, row) by {
                match (nc, oc) {
                    (Column::Number(a), Column::Number(b)) => assert(a.items()[row] == a.items().drop_last()[row]),
                    (Column::Boolean(a), Column::Boolean(b)) => assert(a.items()[row] == a.items().drop_last()[row]),
                    (Column::String(a), Column::String(b)) => assert(a.items()[row] == a.items().drop_last()[row]),
                    _ => {},
                }
            }
        }
    }
}

/// The decompressed rows of one column.
enum ColumnData {
    Number(Vec<Option<Num>>),
    Boolean(Vec<Option<bool>>),
    String(Vec<Option<String>>),
}

/// The decompressed column `d` holds the rows of `c`.
spec fn data_of(d: ColumnData, c: Column) -> bool {
    match (d, c) {
        (ColumnData::Number(v), Column::Number(x)) => v@ == x.items(),
        (ColumnData::Boolean(v), Column::Boolean(x)) => v@ == x.items(),
        (ColumnData::String(v), Column::String(x)) => v@ == x.items(),
        _ => false,
    }
}

/// The value of row `r` of a decompressed column.
fn data_cell(d: &ColumnData, r: usize, Ghost(c): Ghost<Column>) -> (v: Val)
    requires
        data_of(*d, c),
        0 <= r < c.row_count(),
    ensures
        v == cell(c, r as int),
{
    match d {
        ColumnData::Number(v) => match v[r] {
            Some(x) => Val::NumVal(x),
            None => Val::NullVal,
        },
        ColumnData::Boolean(v) => match v[r] {
            Some(x) => Val::BoolVal(x),
            None => Val::NullVal,
        },
        ColumnData::String(v) => match &v[r] {
            Some(x) => Val::StrVal(x.clone()),
            None => Val::NullVal,
        },
    }
}

impl Table {
    /// All rows, first row first; row `i` holds the value of each column at
    /// row `i`, in column order.
    pub fn iter(&self) -> (r: Vec<Vec<Val>>)
        requires
            self.wf(),
        ensures
            r@.len() == self.row_count(),
            forall|i: int| 0 <= i < r@.len() ==> (#[trigger] r@[i])@.len() == self.columns().len(),
            forall|i: int, c: int| 0 <= i < r@.len() && 0 <= c < self.columns().len() ==> #[trigger] r@[i]@[c] == cell(self.columns()[c], i),
    {
        let mut datas: Vec<ColumnData> = Vec::new();
        let mut c: usize = 0;
        while c < self.table.len()
            invariant
                self.wf(),
                c <= self.table@.len(),
                datas@.len() == c,
                forall|k: int| 0 <= k < c ==> data_of(#[trigger] datas@[k], self.table@[k]),
            decreases self.table@.len() - c,
        {
            assert(self.table@[c as int].wf());
            let d = match &self.table[c] {
                Column::Number(x) => ColumnData::Number(x.uncompress()),
                Column::Boolean(x) => ColumnData::Boolean(x.uncompress()),
                Column::String(x) => ColumnData::String(x.uncompress()),
            };
            datas.push(d);
            c += 1;
        }
        let mut rows: Vec<Vec<Val>> = Vec::new();
        let mut i: usize = 0;
        while i < self.size
            invariant
                self.wf(),
                datas@.len() == self.table@.len(),
                forall|k: int| 0 <= k < self.table@.len() ==> data_of(#[trigger] datas@[k], self.table@[k]),
                i <= self.size,
                rows@.len() == i,
                forall|j: int| 0 <= j < i ==> (#[trigger] rows@[j])@.len() == self.table@.len(),
                forall|j: int, k: int| 0 <= j < i && 0 <= k < self.table@.len() ==> #[trigger] rows@[j]@[k] == cell(self.table@[k], j),
            decreases self.size - i,
        {
            let mut row: Vec<Val> = Vec::new();
            let mut k: usize = 0;
            while k < datas.len()
                invariant
                    self.wf(),
                    datas@.len() == self.table@.len(),
                    forall|q: int| 0 <= q < self.table@.len() ==> data_of(#[trigger] datas@[q], self.table@[q]),
                    i < self.size,
                    k <= datas@.len(),
                    row@.len() == k,
                    forall|q: int| 0 <= q < k ==> #[trigger] row@[q] == cell(self.table@[q], i as int),
                decreases datas@.len() - k,
            {
                assert(self.table@[k as int].row_count() >= self.size);
                let v = data_cell(&datas[k], i, Ghost(self.table@[k as int]));
                row.push(v);
                k += 1;
            }
            rows.push(row);
            i += 1;
        }
        rows
    }

    /// Defines an aggregate: its name, current value, update expression and
    /// optional initial expression.
    pub fn add_aggregate(&mut self, name: &String, val: Val, expr: Expr, init: Option<Expr>)
        requires
            old(self).wf(),
        ensures
            final(self).wf(),
            final(self).aggregate_values_view() == old(self).aggregate_values_view().push((name@, val)),
            final(self).aggregate_defs() == old(self).aggregate_defs().push((expr, init)),
            final(self).header_names() == old(self).header_names(),
            final(self).columns() == old(self).columns(),
            final(self).strategies() == old(self).strategies(),
            final(self).row_count() == old(self).row_count(),
            final(self).computation_values_view() == old(self).computation_values_view(),
            final(self).computation_defs() == old(self).computation_defs(),
    {
        let ghost e = expr;
        let ghost ini = init;
        self.aggregates.push((name.clone(), expr, init));
        self.aggregate_values.push(Rc::new(val));
        assert(self.aggregate_values_view() =~= old(self).aggregate_values_view().push((name@, val)));
        assert(self.aggregate_defs() =~= old(self).aggregate_defs().push((e, ini)));
    }

    /// Replaces the aggregates' values, in order. A list of another length
    /// than the aggregates is an error and changes nothing.
    pub fn update_aggregates(&mut self, vals: Vec<Val>) -> (r: Result<(), String>)
        requires
            old(self).wf(),
        ensures
            final(self).wf(),
            vals@.len() != old(self).aggregate_values_view().len() ==> (r matches Err(e)
                && e@ == "Number of aggregate values given does not match number of aggregates stored"@
                && *final(self) == *old(self)),
            vals@.len() == old(self).aggregate_values_view().len() ==> r is Ok
                && final(self).aggregate_values_view() == Seq::new(vals@.len(), |i: int| (old(self).aggregate_values_view()[i].0, vals@[i]))
                && final(self).aggregate_defs() == old(self).aggregate_defs()
                && final(self).header_names() == old(self).header_names()
                && final(self).columns() == old(self).columns()
                && final(self).strategies() == old(self).strategies()
                && final(self).row_count() == old(self).row_count()
                && final(self).computation_values_view() == old(self).computation_values_view()
                && final(self).computation_defs() == old(self).computation_defs(),
    {
        if vals.len() != self.aggregates.len() {
            return Err(String::from_str("Number of aggregate values given does not match number of aggregates stored"));
        }
        self.aggregate_values = rc_all(vals);
        assert(self.aggregate_values_view() =~= Seq::new(vals@.len(), |i: int| (old(self).aggregate_values_view()[i].0, vals@[i])));
        Ok(())
    }

    /// The aggregates' names and expressions, in order of definition.
    pub fn get_aggregates(&self) -> (r: &Vec<(String, Expr, Option<Expr>)>)
        requires
            self.wf(),
        ensures
            r@.len() == self.aggregate_values_view().len(),
            forall|i: int| 0 <= i < r@.len() ==> (#[trigger] r@[i]).0@ == self.aggregate_values_view()[i].0
                && (r@[i].1, r@[i].2) == self.aggregate_defs()[i],
    {
        &self.aggregates
    }

    /// The aggregates' current values, in order of definition.
    pub fn get_aggregate_values(&self) -> (r: &Vec<Rc<Val>>)
        requires
            self.wf(),
        ensures
            r@.len() == self.aggregate_values_view().len(),
            forall|i: int| 0 <= i < r@.len() ==> *(#[trigger] r@[i]) == self.aggregate_values_view()[i].1,
    {
        &self.aggregate_values
    }

    /// The current value of the first aggregate called `name`; an error when
    /// there is none.
    pub fn get_aggregate(&self, name: &String) -> (r: Result<Rc<Val>, String>)
        requires
            self.wf(),
        ensures
            r is Ok == has_name(names_of(self.aggregate_values_view()), name@),
            r matches Ok(v) ==> exists|i: int| #[trigger] first_index_of(names_of(self.aggregate_values_view()), name@, i)
                && *v == self.aggregate_values_view()[i].1,
            r matches Err(e) ==> e@ == "Aggregate "@ + " does not exist"@,
    {
        let ghost names = names_of(self.aggregate_values_view());
        let mut i: usize = 0;
        while i < self.aggregates.len()
            invariant
                self.wf(),
                names == names_of(self.aggregate_values_view()),
                i <= self.aggregates@.len(),
                forall|j: int| 0 <= j < i ==> names[j] != name@,
            decreases self.aggregates@.len() - i,
        {
            if self.aggregates[i].0 == *name {
                assert(names[i as int] == name@);
                assert(first_index_of(names, name@, i as int));
                return Ok(rc_clone(&self.aggregate_values[i]));
            }
            i += 1;
        }
        Err(String::from_str("Aggregate ").concat(" does not exist"))
    }

    /// Binds each aggregate's name to its value in `env`, in order.
    pub fn push_aggregates(&self, env: &mut Environment)
        requires
            self.wf(),
        ensures
            final(env).frame_list() == pushed_all(old(env).frame_list(), self.aggregate_values_view()),
    {
        let ghost bs = self.aggregate_values_view();
        let mut i: usize = 0;
        assert(bs.take(0) =~= Seq::<(Seq<char>, Val)>::empty());
        while i < self.aggregates.len()
            invariant
                self.wf(),
                bs == self.aggregate_values_view(),
                i <= self.aggregates@.len(),
                env.frame_list() == pushed_all(old(env).frame_list(), bs.take(i as int)),
            decreases self.aggregates@.len() - i,
        {
            env.push_shared(self.aggregates[i].0.clone(), rc_clone(&self.aggregate_values[i]));
            proof {
                assert(bs.take(i + 1).drop_last() =~= bs.take(i as int));
            }
            i += 1;
        }
        assert(bs.take(i as int) =~= bs);
    }

    /// Binds each aggregate's name, then each computation's name, to its
    /// value in `env`, in order.
    pub fn push_all(&self, env: &mut Environment)
        requires
            self.wf(),
        ensures
            final(env).frame_list() == pushed_all(
                pushed_all(old(env).frame_list(), self.aggregate_values_view()),
                self.computation_values_view(),
            ),
    {
        self.push_aggregates(env);
        push_bindings(&self.computations, &self.computation_values, env);
    }

    /// Defines a computation: its name, current value and expression.
    pub fn add_computation(&mut self, name: &String, val: Val, expr: Expr)
        requires
            old(self).wf(),
        ensures
            final(self).wf(),
            final(self).computation_values_view() == old(self).computation_values_view().push((name@, val)),
            final(self).computation_defs() == old(self).computation_defs().push(expr),
            final(self).header_names() == old(self).header_names(),
            final(self).columns() == old(self).columns(),
            final(self).strategies() == old(self).strategies(),
            final(self).row_count() == old(self).row_count(),
            final(self).aggregate_values_view() == old(self).aggregate_values_view(),
            final(self).aggregate_defs() == old(self).aggregate_defs(),
    {
        let ghost e = expr;
        self.computations.push((name.clone(), expr));
        self.computation_values.push(Rc::new(val));
        assert(self.computation_values_view() =~= old(self).computation_values_view().push((name@, val)));
        assert(self.computation_defs() =~= old(self).computation_defs().push(e));
    }

    /// Replaces the computations' values, in order. A list of another length
    /// than the computations is an error and changes nothing.
    pub fn update_computations(&mut self, vals: Vec<Val>) -> (r: Result<(), String>)
        requires
            old(self).wf(),
        ensures
            final(self).wf(),
            vals@.len() != old(self).computation_values_view().len() ==> (r matches Err(e)
                && e@ == "Number of values given does not match number of computations"@
                && *final(self) == *old(self)),
            vals@.len() == old(self).computation_values_view().len() ==> r is Ok
                && final(self).computation_values_view() == Seq::new(vals@.len(), |i: int| (old(self).computation_values_view()[i].0, vals@[i]))
                && final(self).computation_defs() == old(self).computation_defs()
                && final(self).header_names() == old(self).header_names()
                && final(self).columns() == old(self).columns()
                && final(self).strategies() == old(self).strategies()
                && final(self).row_count() == old(self).row_count()
                && final(self).aggregate_values_view() == old(self).aggregate_values_view()
                && final(self).aggregate_defs() == old(self).aggregate_defs(),
    {
        if vals.len() != self.computations.len() {
            return Err(String::from_str("Number of values given does not match number of computations"));
        }
        self.computation_values = rc_all(vals);
        assert(self.computation_values_view() =~= Seq::new(vals@.len(), |i: int| (old(self).computation_values_view()[i].0, vals@[i])));
        Ok(())
    }

    /// The computations' names and expressions, in order of definition.
    pub fn get_computations(&self) -> (r: &Vec<(String, Expr)>)
        requires
            self.wf(),
        ensures
            r@.len() == self.computation_values_view().len(),
            forall|i: int| 0 <= i < r@.len() ==> (#[trigger] r@[i]).0@ == self.computation_values_view()[i].0
                && r@[i].1 == self.computation_defs()[i],
    {
        &self.computations
    }

    /// The current value of the first computation called `name`; an error
    /// when there is none.
    pub fn get_computation(&self, name: &String) -> (r: Result<Rc<Val>, String>)
        requires
            self.wf(),
        ensures
            r is Ok == has_name(names_of(self.computation_values_view()), name@),
            r matches Ok(v) ==> exists|i: int| #[trigger] first_index_of(names_of(self.computation_values_view()), name@, i)
                && *v == self.computation_values_view()[i].1,
            r matches Err(e) ==> e@ == "Computation "@ + name@ + " does not exist"@,
    {
        let ghost names = names_of(self.computation_values_view());
        let mut i: usize = 0;
        while i < self.computations.len()
            invariant
                self.wf(),
                names == names_of(self.computation_values_view()),
                i <= self.computations@.len(),
                forall|j: int| 0 <= j < i ==> names[j] != name@,
            decreases self.computations@.len() - i,
        {
            if self.computations[i].0 == *name {
                assert(names[i as int] == name@);
                assert(first_index_of(names, name@, i as int));
                return Ok(rc_clone(&self.computation_values[i]));
            }
            i += 1;
        }
        Err(String::from_str("Computation ").concat(name.as_str()).concat(" does not exist"))
    }
}

/// Every value, each in a shared pointer of its own.
fn rc_all(vals: Vec<Val>) -> (r: Vec<Rc<Val>>)
    ensures
        r@.len() == vals@.len(),
        forall|i: int| 0 <= i < r@.len() ==> *(#[trigger] r@[i]) == vals@[i],
{
    let ghost orig = vals@;
    let mut vals = vals;
    let mut rev: Vec<Rc<Val>> = Vec::new();
    while vals.len() > 0
        invariant
            vals@.len() + rev@.len() == orig.len(),
            vals@ == orig.take(vals@.len() as int),
            forall|i: int| 0 <= i < rev@.len() ==> *(#[trigger] rev@[i]) == orig[orig.len() - 1 - i],
        decreases vals@.len(),
    {
        let v = vals.pop().unwrap();
        rev.push(Rc::new(v));
        assert(vals@ =~= orig.take(vals@.len() as int));
    }
    let mut out: Vec<Rc<Val>> = Vec::new();
    while rev.len() > 0
        invariant
            out@.len() + rev@.len() == orig.len(),
            forall|i: int| 0 <= i < rev@.len() ==> *(#[trigger] rev@[i]) == orig[orig.len() - 1 - i],
            forall|i: int| 0 <= i < out@.len() ==> *(#[trigger] out@[i]) == orig[i],
        decreases rev@.len(),
    {
        let v = rev.pop().unwrap();
        out.push(v);
    }
    out
}

/// Binds `names[i].0` to `vals[i]` in `env`, for each `i` in order.
fn push_bindings<D>(names: &Vec<(String, D)>, vals: &Vec<Rc<Val>>, env: &mut Environment)
    requires
        names@.len() == vals@.len(),
    ensures
        final(env).frame_list() == pushed_all(
            old(env).frame_list(),
            Seq::new(names@.len(), |i: int| (names@[i].0@, *vals@[i])),
        ),
{
    let ghost bs = Seq::new(names@.len(), |i: int| (names@[i].0@, *vals@[i]));
    let mut i: usize = 0;
    assert(bs.take(0) =~= Seq::<(Seq<char>, Val)>::empty());
    while i < names.len()
        invariant
            names@.len() == vals@.len(),
            bs == Seq::new(names@.len(), |i: int| (names@[i].0@, *vals@[i])),
            i <= names@.len(),
            env.frame_list() == pushed_all(old(env).frame_list(), bs.take(i as int)),
        decreases names@.len() - i,
    {
        env.push_shared(names[i].0.clone(), rc_clone(&vals[i]));
        proof {
            assert(bs.take(i + 1).drop_last() =~= bs.take(i as int));
        }
        i += 1;
    }
    assert(bs.take(i as int) =~= bs);
}
} // verus!
