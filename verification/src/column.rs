//! Column stores: the ways a table keeps the values of one column, plain or
//! compressed, and reads them back.
use vstd::prelude::*;
use crate::bits::{Bits, bitvec_bits, bitvec_get, bitvec_len, bitvec_new, bitvec_push, max_bits};
use crate::num::{Num, float_eq_bits};
use crate::types::CompressType;
use vstd::std_specs::bits::{u64_leading_zeros, u64_trailing_zeros, axiom_u64_leading_zeros, axiom_u64_trailing_zeros};

verus! {

/// A value that a column can hold.
pub trait ColumnItem: Sized {
    /// What `==` means on the values of this type.
    spec fn same(&self, other: &Self) -> bool;

    /// `==` on the values of this type.
    fn same_exec(&self, other: &Self) -> (r: bool)
        ensures
            r == self.same(other),
    ;

    /// `==` is symmetric.
    proof fn lemma_same_symmetric(&self, other: &Self)
        ensures
            self.same(other) == other.same(self),
    ;

    /// A copy of the value.
    fn duplicate(&self) -> (r: Self)
        ensures
            r == *self,
    ;
}

impl ColumnItem for Num {
    open spec fn same(&self, other: &Self) -> bool {
        float_eq_bits(self.0, other.0)
    }

    fn same_exec(&self, other: &Self) -> (r: bool) {
        self.float_eq(other)
    }

    proof fn lemma_same_symmetric(&self, other: &Self) {
    }

    fn duplicate(&self) -> (r: Self) {
        *self
    }
}

impl ColumnItem for bool {
    open spec fn same(&self, other: &Self) -> bool {
        *self == *other
    }

    fn same_exec(&self, other: &Self) -> (r: bool) {
        *self == *other
    }

    proof fn lemma_same_symmetric(&self, other: &Self) {
    }

    fn duplicate(&self) -> (r: Self) {
        *self
    }
}

impl ColumnItem for String {
    open spec fn same(&self, other: &Self) -> bool {
        self@ == other@
    }

    fn same_exec(&self, other: &Self) -> (r: bool) {
        *self == *other
    }

    proof fn lemma_same_symmetric(&self, other: &Self) {
    }

    fn duplicate(&self) -> (r: Self) {
        self.clone()
    }
}

/// A value read back from a column stands for the value written: both are
/// null, or the value read is the one written or `==` to it. (Run-length and
/// bitmap columns give back the first of a group of `==` values.)
pub open spec fn reads_as<T: ColumnItem>(read: Option<T>, written: Option<T>) -> bool {
    match (read, written) {
        (None, None) => true,
        (Some(r), Some(w)) => r == w || w.same(&r),
        _ => false,
    }
}

/// A number read back from any column stands for the number written with its
/// sign: where the number written is not a zero, what is read is exactly that
/// number (never its negation); a zero may come back as either zero.
pub proof fn law_num_reads_back(read: Option<Num>, written: Option<Num>)
    requires
        reads_as(read, written),
    ensures
        read is Some <==> written is Some,
        written is Some && (written->0).0 << 1u64 != 0u64 ==> read == written,
        written is Some && (written->0).0 << 1u64 != 0u64 ==> read != Some(
            Num((written->0).0 ^ 0x8000_0000_0000_0000u64),
        ),
        written is Some && (written->0).0 << 1u64 == 0u64 ==> (read->0).0 << 1u64 == 0u64,
{
    if let (Some(r), Some(w)) = (read, written) {
        crate::num::law_float_eq(w.0, r.0);
        crate::num::law_float_eq(r.0, w.0);
        let x: u64 = w.0;
        assert(x << 1u64 != 0u64 ==> x != x ^ 0x8000_0000_0000_0000u64) by (bit_vector);
    }
}

/// Each value of `read` stands for the value of `written` at the same place.
pub open spec fn reads_all_as<T: ColumnItem>(read: Seq<Option<T>>, written: Seq<Option<T>>) -> bool {
    &&& read.len() == written.len()
    &&& forall|i: int| 0 <= i < read.len() ==> reads_as(#[trigger] read[i], written[i])
}

/// A copy of an optional value.
pub fn duplicate_option<T: ColumnItem>(v: &Option<T>) -> (r: Option<T>)
    ensures
        r == *v,
{
    match v {
        Some(x) => Some(x.duplicate()),
        None => None,
    }
}

/// The number of rows below which a column packed into a bit-vector has room
/// for one more row (a machine limit: its bits must fit in a `BitVec`).
pub open spec fn row_limit() -> nat {
    max_bits() / 256
}

/// The largest number of rows a column packed into a bit-vector is sure to
/// hold.
pub fn max_rows() -> (r: usize)
    ensures
        r == row_limit(),
{
    usize::MAX / 8 / 256
}

/// What every column store offers: insert a value at the end, count the
/// values, and read all of them back in order.
pub trait ColumnInterface<T: ColumnItem> {
    /// The values that reading the column gives, first row first.
    spec fn items(&self) -> Seq<Option<T>>;

    /// The store's internal invariant.
    spec fn wf(&self) -> bool;

    /// The store can take one more value without exceeding a machine limit.
    spec fn has_room(&self) -> bool;

    /// Below how many rows the store surely has room for one more:
    /// `row_limit()` for the stores packed into a bit-vector, the largest
    /// `usize` for the others.
    spec fn row_cap(&self) -> int;

    /// A store with fewer than `row_cap()` rows has room for one more.
    proof fn lemma_room(&self)
        requires
            self.wf(),
            self.items().len() < self.row_cap(),
        ensures
            self.has_room(),
    ;

    /// The store keeps each value exactly as written (it never stands one
    /// value for another that is `==` to it).
    spec fn keeps_values(&self) -> bool;

    /// Appends a value (or a null) as the last row.
    fn insert(&mut self, data: Option<T>)
        requires
            old(self).wf(),
            old(self).has_room(),
        ensures
            final(self).wf(),
            final(self).keeps_values() == old(self).keeps_values(),
            final(self).row_cap() == old(self).row_cap(),
            old(self).keeps_values() ==> final(self).items() == old(self).items().push(data),
            final(self).items().len() == old(self).items().len() + 1,
            final(self).items().drop_last() == old(self).items(),
            reads_as(final(self).items().last(), data),
    ;

    /// Whether the store can take one more value.
    fn room(&self) -> (r: bool)
        requires
            self.wf(),
        ensures
            r == self.has_room(),
    ;

    /// The number of rows the store reports (its rows, except where a store
    /// counts otherwise).
    spec fn reported_len(&self) -> int;

    /// The number of rows, as the store reports it.
    fn len(&self) -> (r: usize)
        requires
            self.wf(),
        ensures
            r == self.reported_len(),
    ;

    /// All rows, decompressed.
    fn uncompress(&self) -> (r: Vec<Option<T>>)
        requires
            self.wf(),
        ensures
            r@ == self.items(),
    ;
}

// ---------------------------------------------------------------------------
// Plain storage
// ---------------------------------------------------------------------------

/// A column that keeps every value as it is.
pub struct Uncompressed<T> {
    data: Vec<Option<T>>,
}

impl<T: ColumnItem> Uncompressed<T> {
    /// An empty column.
    pub fn new() -> (r: Uncompressed<T>)
        ensures
            r.wf(),
            r.items() == Seq::<Option<T>>::empty(),
    {
        Uncompressed { data: Vec::new() }
    }
}

impl<T: ColumnItem> ColumnInterface<T> for Uncompressed<T> {
    open spec fn row_cap(&self) -> int {
        usize::MAX as int
    }

    fn room(&self) -> (r: bool) {
        self.data.len() < usize::MAX
    }

    open spec fn keeps_values(&self) -> bool {
        true
    }

    open spec fn reported_len(&self) -> int {
        self.items().len() as int
    }

    closed spec fn items(&self) -> Seq<Option<T>> {
        self.data@
    }

    closed spec fn wf(&self) -> bool {
        true
    }

    closed spec fn has_room(&self) -> bool {
        self.data@.len() < usize::MAX
    }

    proof fn lemma_room(&self) {
    }

    /// Appends the value itself.
    fn insert(&mut self, data: Option<T>)
        ensures
            final(self).items() == old(self).items().push(data),
    {
        self.data.push(data);
    }

    fn len(&self) -> (r: usize) {
        self.data.len()
    }

    fn uncompress(&self) -> (r: Vec<Option<T>>) {
        let mut out: Vec<Option<T>> = Vec::new();
        let mut i: usize = 0;
        while i < self.data.len()
            invariant
                i <= self.data@.len(),
                out@ == self.data@.take(i as int),
            decreases self.data@.len() - i,
        {
            out.push(duplicate_option(&self.data[i]));
            i += 1;
            assert(out@ =~= self.data@.take(i as int));
        }
        assert(self.data@.take(i as int) =~= self.data@);
        out
    }
}

// ---------------------------------------------------------------------------
// Booleans packed into bits
// ---------------------------------------------------------------------------

/// The bits that stand for one boolean row: `0` for null, `1` then the value
/// otherwise.
pub open spec fn bool_chunk(v: Option<bool>) -> Seq<bool> {
    match v {
        None => seq![false],
        Some(x) => seq![true, x],
    }
}

/// The bits that stand for a sequence of boolean rows.
pub open spec fn bool_encode(items: Seq<Option<bool>>) -> Seq<bool>
    decreases items.len(),
{
    if items.len() == 0 {
        Seq::empty()
    } else {
        bool_encode(items.drop_last()) + bool_chunk(items.last())
    }
}

/// The encoding of the first `k` rows is a prefix of the encoding of all rows,
/// followed by the chunk of row `k`.
proof fn lemma_bool_encode_prefix(items: Seq<Option<bool>>, k: int)
    requires
        0 <= k < items.len(),
    ensures
        bool_encode(items.take(k)) + bool_chunk(items[k]) =~= bool_encode(items.take(k + 1)),
        bool_encode(items.take(k + 1)).len() <= bool_encode(items).len(),
        bool_encode(items).subrange(0, bool_encode(items.take(k + 1)).len() as int)
            =~= bool_encode(items.take(k + 1)),
    decreases items.len() - k,
{
    assert(items.take(k + 1).drop_last() =~= items.take(k));
    if k + 1 == items.len() {
        assert(items.take(k + 1) =~= items);
    } else {
        lemma_bool_encode_prefix(items.drop_last(), k);
        assert(items.drop_last().take(k) =~= items.take(k));
        assert(items.drop_last().take(k + 1) =~= items.take(k + 1));
    }
}

/// Each row takes at most two bits.
proof fn lemma_bool_encode_len(items: Seq<Option<bool>>)
    ensures
        bool_encode(items).len() <= 2 * items.len(),
    decreases items.len(),
{
    if items.len() > 0 {
        lemma_bool_encode_len(items.drop_last());
    }
}

/// A boolean column that packs each row into one or two bits.
pub struct BoolCol {
    data: Bits,
    len: usize,
    rows: Ghost<Seq<Option<bool>>>,
}

impl BoolCol {
    /// An empty column.
    pub fn new() -> (r: BoolCol)
        ensures
            r.wf(),
            r.items() == Seq::<Option<bool>>::empty(),
    {
        let data = bitvec_new();
        let r = BoolCol { data, len: 0, rows: Ghost(Seq::empty()) };
        assert(bool_encode(r.rows@) =~= Seq::<bool>::empty());
        r
    }
}

impl ColumnInterface<bool> for BoolCol {
    open spec fn row_cap(&self) -> int {
        row_limit() as int
    }

    fn room(&self) -> (r: bool) {
        bitvec_len(&self.data) < usize::MAX / 8 - 2 && self.len < usize::MAX
    }

    open spec fn keeps_values(&self) -> bool {
        true
    }

    open spec fn reported_len(&self) -> int {
        self.items().len() as int
    }

    closed spec fn items(&self) -> Seq<Option<bool>> {
        self.rows@
    }

    closed spec fn wf(&self) -> bool {
        &&& bitvec_bits(self.data) == bool_encode(self.rows@)
        &&& self.len == self.rows@.len()
    }

    closed spec fn has_room(&self) -> bool {
        &&& bitvec_bits(self.data).len() + 2 < max_bits()
        &&& self.rows@.len() < usize::MAX
    }

    proof fn lemma_room(&self) {
        lemma_bool_encode_len(self.rows@);
    }

    /// Appends the value itself.
    fn insert(&mut self, data: Option<bool>)
        ensures
            final(self).items() == old(self).items().push(data),
    {
        match data {
            None => bitvec_push(&mut self.data, false),
            Some(x) => {
                bitvec_push(&mut self.data, true);
                bitvec_push(&mut self.data, x);
            },
        }
        self.len = self.len + 1;
        let ghost old_rows = self.rows@;
        self.rows = Ghost(self.rows@.push(data));
        assert(self.rows@.drop_last() =~= old_rows);
        assert(bitvec_bits(self.data) =~= bool_encode(self.rows@));
    }

    fn len(&self) -> (r: usize) {
        self.len
    }

    fn uncompress(&self) -> (r: Vec<Option<bool>>) {
        let mut out: Vec<Option<bool>> = Vec::new();
        let mut index: usize = 0;
        let total = bitvec_len(&self.data);
        let ghost rows = self.rows@;
        proof {
            assert(rows.take(0) =~= Seq::<Option<bool>>::empty());
        }
        while index < total
            invariant
                total == bitvec_bits(self.data).len(),
                bitvec_bits(self.data) == bool_encode(rows),
                rows == self.rows@,
                out@.len() <= rows.len(),
                out@ == rows.take(out@.len() as int),
                index == bool_encode(rows.take(out@.len() as int)).len(),
                index <= total,
            decreases total - index,
        {
            let ghost k = out@.len() as int;
            proof {
                if k == rows.len() as int {
                    assert(rows.take(k) =~= rows);
                }
                lemma_bool_encode_prefix(rows, k);
                let pre = bool_encode(rows.take(k));
                let c = bool_chunk(rows[k]);
                let full = bool_encode(rows);
                assert(full.subrange(0, (pre.len() + c.len()) as int) =~= pre + c);
                assert forall|j: int| 0 <= j < c.len() implies full[pre.len() + j] == c[j] by {
                    assert(full.subrange(0, (pre.len() + c.len()) as int)[pre.len() + j] == full[pre.len()
                        + j]);
                }
            }
            let ghost c = bool_chunk(rows[k]);
            assert(bitvec_bits(self.data)[index as int] == c[0]);
            let control = bitvec_get(&self.data, index);
            index = index + 1;
            if control {
                assert(c.len() == 2);
                assert(bitvec_bits(self.data)[index as int] == c[1]);
                let v = bitvec_get(&self.data, index);
                index = index + 1;
                out.push(Some(v));
            } else {
                out.push(None);
            }
            assert(out@ =~= rows.take(k + 1));
        }
        let ghost k = out@.len() as int;
        proof {
            if k < rows.len() as int {
                lemma_bool_encode_prefix(rows, k);
            }
        }
        assert(out@ =~= rows);
        out
    }
}


// ---------------------------------------------------------------------------
// Run-length encoding
// ---------------------------------------------------------------------------

/// The rows that a list of runs stands for: each run `(v, n)` is `n` copies
/// of `v`.
pub open spec fn expand<T>(runs: Seq<(Option<T>, usize)>) -> Seq<Option<T>>
    decreases runs.len(),
{
    if runs.len() == 0 {
        Seq::empty()
    } else {
        expand(runs.drop_last()) + Seq::new(runs.last().1 as nat, |_i: int| runs.last().0)
    }
}

/// Every run is at least one row long, and there are at least as many rows as
/// runs; the last run is no longer than all rows together.
proof fn lemma_expand_len<T>(runs: Seq<(Option<T>, usize)>)
    requires
        forall|i: int| 0 <= i < runs.len() ==> #[trigger] runs[i].1 >= 1,
    ensures
        expand(runs).len() >= runs.len(),
        runs.len() > 0 ==> runs.last().1 <= expand(runs).len(),
    decreases runs.len(),
{
    if runs.len() > 0 {
        let d = runs.drop_last();
        assert forall|i: int| 0 <= i < d.len() implies #[trigger] d[i].1 >= 1 by {
            assert(d[i] == runs[i]);
        }
        lemma_expand_len(d);
        assert(runs[runs.len() - 1].1 >= 1);
    }
}

/// Lengthening the last run by one appends one more copy of its value.
proof fn lemma_expand_extend_last<T>(runs: Seq<(Option<T>, usize)>, n: usize)
    requires
        runs.len() > 0,
        n == runs.last().1 + 1,
    ensures
        expand(runs.update(runs.len() - 1, (runs.last().0, n))) =~= expand(runs).push(
            runs.last().0,
        ),
{
    let r2 = runs.update(runs.len() - 1, (runs.last().0, n));
    assert(r2.drop_last() =~= runs.drop_last());
}

/// Appending a run of length one appends its value.
proof fn lemma_expand_push<T>(runs: Seq<(Option<T>, usize)>, v: Option<T>)
    ensures
        expand(runs.push((v, 1usize))) =~= expand(runs).push(v),
{
    assert(runs.push((v, 1usize)).drop_last() =~= runs);
}

/// A column that stores runs of `==` values as one value and a count.
pub struct RunLength<T> {
    data: Vec<(Option<T>, usize)>,
    len: usize,
    size: usize,
}

impl<T: ColumnItem> RunLength<T> {
    /// An empty column.
    pub fn new() -> (r: RunLength<T>)
        ensures
            r.wf(),
            r.items() == Seq::<Option<T>>::empty(),
    {
        let r = RunLength { data: Vec::new(), len: 0, size: 0 };
        assert(expand(r.data@) =~= Seq::<Option<T>>::empty());
        r
    }
}

/// No run continues the one before it: adjacent runs hold values that are
/// not `==` (or exactly one of them is null).
pub open spec fn runs_squeezed<T: ColumnItem>(runs: Seq<(Option<T>, usize)>) -> bool {
    forall|i: int, j: int| #![trigger runs[i], runs[j]] 0 <= i && j == i + 1 && j < runs.len()
        ==> !continues_run_spec(runs[j].0, runs[i].0)
}

impl<T: ColumnItem> RunLength<T> {
    /// The runs: each value with how many rows in a row hold it.
    pub closed spec fn runs(&self) -> Seq<(Option<T>, usize)> {
        self.data@
    }

    /// A well-formed run-length column: every run is at least one row long,
    /// the runs laid end to end are the column's values, and contiguous equal
    /// values are squeezed into one run.
    pub proof fn lemma_runs(&self)
        requires
            self.wf(),
        ensures
            forall|i: int| 0 <= i < self.runs().len() ==> #[trigger] self.runs()[i].1 >= 1,
            expand(self.runs()) == self.items(),
            runs_squeezed(self.runs()),
    {
    }
}

/// Whether a new value continues the current run: both are null, or the new
/// value is `==` to the run's value.
fn continues_run<T: ColumnItem>(data: &Option<T>, run: &Option<T>) -> (r: bool)
    ensures
        r ==> reads_as(*run, *data),
        r <== (data.is_none() && run.is_none()),
        (data.is_some() && run.is_some()) ==> (r == data.unwrap().same(&run.unwrap())),
{
    match (data, run) {
        (None, None) => true,
        (Some(x), Some(y)) => x.same_exec(y),
        _ => false,
    }
}

impl<T: ColumnItem> ColumnInterface<T> for RunLength<T> {
    open spec fn row_cap(&self) -> int {
        usize::MAX as int
    }

    fn room(&self) -> (r: bool) {
        self.len < usize::MAX
    }

    open spec fn keeps_values(&self) -> bool {
        false
    }

    open spec fn reported_len(&self) -> int {
        self.items().len() as int
    }

    closed spec fn items(&self) -> Seq<Option<T>> {
        expand(self.data@)
    }

    closed spec fn wf(&self) -> bool {
        &&& self.size == self.data@.len()
        &&& self.len == expand(self.data@).len()
        &&& forall|i: int| 0 <= i < self.data@.len() ==> #[trigger] self.data@[i].1 >= 1
        &&& runs_squeezed(self.data@)
    }

    closed spec fn has_room(&self) -> bool {
        self.len < usize::MAX
    }

    proof fn lemma_room(&self) {
    }

    /// Extends the last run when the value is `==` to its value (or both are
    /// null), and starts a new run otherwise.
    fn insert(&mut self, data: Option<T>)
        ensures
            final(self).items() == old(self).items().push(
                if old(self).items().len() > 0 && continues_run_spec(data, old(self).items().last()) {
                    old(self).items().last()
                } else {
                    data
                },
            ),
    {
        proof {
            lemma_expand_len(self.data@);
        }
        if self.len == 0 {
            proof {
                lemma_expand_push(self.data@, data);
            }
            self.data.push((data, 1));
            self.size = self.size + 1;
        } else {
            let last = self.size - 1;
            let ghost runs = self.data@;
            proof {
                assert(expand(runs).last() == runs.last().0) by {
                    assert(runs.last().1 >= 1);
                }
            }
            if continues_run(&data, &self.data[last].0) {
                let v = duplicate_option(&self.data[last].0);
                let n = self.data[last].1 + 1;
                proof {
                    lemma_expand_extend_last(runs, n);
                }
                self.data.set(last, (v, n));
                assert forall|i: int| 0 <= i < self.data@.len() implies #[trigger] self.data@[i].1
                    >= 1 by {
                    if i != last {
                        assert(self.data@[i] == runs[i]);
                    }
                }
                assert forall|i: int, j: int| #![trigger self.data@[i], self.data@[j]] 0 <= i && j == i + 1 && j < self.data@.len()
                    implies !continues_run_spec(self.data@[j].0, self.data@[i].0) by {
                    assert(self.data@[i].0 == runs[i].0);
                    assert(self.data@[j].0 == runs[j].0);
                    assert(!continues_run_spec(runs[j].0, runs[i].0));
                }
            } else {
                proof {
                    lemma_expand_push(runs, data);
                }
                self.data.push((data, 1));
                self.size = self.size + 1;
                assert forall|i: int| 0 <= i < self.data@.len() implies #[trigger] self.data@[i].1
                    >= 1 by {
                    if i < runs.len() {
                        assert(self.data@[i] == runs[i]);
                    }
                }
                assert forall|i: int, j: int| #![trigger self.data@[i], self.data@[j]] 0 <= i && j == i + 1 && j < self.data@.len()
                    implies !continues_run_spec(self.data@[j].0, self.data@[i].0) by {
                    if j < runs.len() {
                        assert(self.data@[i] == runs[i]);
                        assert(self.data@[j] == runs[j]);
                        assert(!continues_run_spec(runs[j].0, runs[i].0));
                    } else {
                        assert(self.data@[i] == runs[last as int]);
                    }
                }
            }
        }
        self.len = self.len + 1;
    }

    fn len(&self) -> (r: usize) {
        self.len
    }

    fn uncompress(&self) -> (r: Vec<Option<T>>) {
        let mut out: Vec<Option<T>> = Vec::new();
        let mut i: usize = 0;
        let ghost runs = self.data@;
        assert(runs.take(0) =~= Seq::<(Option<T>, usize)>::empty());
        while i < self.data.len()
            invariant
                runs == self.data@,
                i <= runs.len(),
                out@ == expand(runs.take(i as int)),
            decreases runs.len() - i,
        {
            let count = self.data[i].1;
            let mut j: usize = 0;
            while j < count
                invariant
                    runs == self.data@,
                    i < runs.len(),
                    count == runs[i as int].1,
                    j <= count,
                    out@ == expand(runs.take(i as int)) + Seq::new(
                        j as nat,
                        |_k: int| runs[i as int].0,
                    ),
                decreases count - j,
            {
                out.push(duplicate_option(&self.data[i].0));
                j += 1;
                assert(out@ =~= expand(runs.take(i as int)) + Seq::new(
                    j as nat,
                    |_k: int| runs[i as int].0,
                ));
            }
            proof {
                assert(runs.take(i + 1).drop_last() =~= runs.take(i as int));
            }
            i += 1;
        }
        assert(runs.take(i as int) =~= runs);
        out
    }
}

/// Whether a new value `data` continues a run of `run` (spec form of
/// `continues_run`).
pub open spec fn continues_run_spec<T: ColumnItem>(data: Option<T>, run: Option<T>) -> bool {
    match (data, run) {
        (None, None) => true,
        (Some(x), Some(y)) => x.same(&y),
        _ => false,
    }
}

// ---------------------------------------------------------------------------
// Bitmap encoding
// ---------------------------------------------------------------------------

/// The value of row `i` in a list of `(value, bitmap)` entries: the value of
/// the first entry whose bitmap has bit `i` set, or null when none has.
pub open spec fn row_value<T>(entries: Seq<(T, Seq<bool>)>, i: int) -> Option<T>
    decreases entries.len(),
{
    if entries.len() == 0 {
        None
    } else if entries[0].1[i] {
        Some(entries[0].0)
    } else {
        row_value(entries.drop_first(), i)
    }
}

/// Row `i` depends only on the values and on bit `i` of each bitmap.
proof fn lemma_row_value_same_bits<T>(a: Seq<(T, Seq<bool>)>, b: Seq<(T, Seq<bool>)>, i: int)
    requires
        a.len() == b.len(),
        forall|j: int| 0 <= j < a.len() ==> (#[trigger] a[j]).0 == b[j].0 && a[j].1[i] == b[j].1[i],
    ensures
        row_value(a, i) == row_value(b, i),
    decreases a.len(),
{
    if a.len() > 0 {
        assert(a[0].0 == b[0].0 && a[0].1[i] == b[0].1[i]);
        let a1 = a.drop_first();
        let b1 = b.drop_first();
        assert forall|j: int| 0 <= j < a1.len() implies (#[trigger] a1[j]).0 == b1[j].0
            && a1[j].1[i] == b1[j].1[i] by {
            assert(a1[j] == a[j + 1] && b1[j] == b[j + 1]);
        }
        lemma_row_value_same_bits(a1, b1, i);
    }
}

/// The first entry with bit `i` set gives row `i`; with none set the row is
/// null.
proof fn lemma_row_value_first<T>(a: Seq<(T, Seq<bool>)>, i: int, k: int)
    requires
        0 <= k <= a.len(),
        forall|j: int| 0 <= j < k ==> !(#[trigger] a[j]).1[i],
        k < a.len() ==> a[k].1[i],
    ensures
        row_value(a, i) == (if k < a.len() { Some(a[k].0) } else { None::<T> }),
    decreases a.len(),
{
    if a.len() > 0 && k > 0 {
        let a1 = a.drop_first();
        assert(!a[0].1[i]);
        assert forall|j: int| 0 <= j < k - 1 implies !(#[trigger] a1[j]).1[i] by {
            assert(a1[j] == a[j + 1]);
        }
        if k < a.len() {
            assert(a1[k - 1] == a[k]);
        }
        lemma_row_value_first(a1, i, k - 1);
    }
}

/// The entries of a bitmap column as values and plain bit sequences.
pub open spec fn bitmap_entries<T>(data: Seq<(T, Bits)>) -> Seq<(T, Seq<bool>)> {
    data.map_values(|e: (T, Bits)| (e.0, bitvec_bits(e.1)))
}

/// No two of `vs` are `==`.
pub open spec fn values_distinct<T: ColumnItem>(vs: Seq<T>) -> bool {
    forall|i: int, j: int| #![trigger vs[i], vs[j]] 0 <= i < vs.len() && 0 <= j < vs.len() && i != j ==> !vs[i].same(&vs[j])
}

/// Each of the first `n` rows is marked in at most one of the bitmaps of `es`.
pub open spec fn one_mark_per_row<T>(es: Seq<(T, Seq<bool>)>, n: int) -> bool {
    forall|r: int, j1: int, j2: int| #![trigger es[j1].1[r], es[j2].1[r]]
        0 <= r < n && 0 <= j1 < es.len() && 0 <= j2 < es.len() && j1 != j2 && es[j1].1[r] ==> !es[j2].1[r]
}

/// `x` is `==` to one of `vs`.
pub open spec fn has_same<T: ColumnItem>(vs: Seq<T>, x: T) -> bool {
    exists|i: int| 0 <= i < vs.len() && x.same(&#[trigger] vs[i])
}

/// The distinct non-null values of `vals` (no two `==`), in the order they
/// first occur.
pub open spec fn first_seen<T: ColumnItem>(vals: Seq<Option<T>>) -> Seq<T>
    decreases vals.len(),
{
    if vals.len() == 0 {
        Seq::empty()
    } else {
        let f = first_seen(vals.drop_last());
        match vals.last() {
            None => f,
            Some(x) => if has_same(f, x) {
                f
            } else {
                f.push(x)
            },
        }
    }
}

/// A column that keeps one bitmap per distinct value, marking the rows that
/// hold that value.
pub struct BitMap<T> {
    data: Vec<(T, Bits)>,
    len: usize,
    size: usize,
}

impl<T: ColumnItem> BitMap<T> {
    /// The values that have a bitmap, in the order they were first seen.
    pub closed spec fn entry_values(&self) -> Seq<T> {
        self.data@.map_values(|e: (T, Bits)| e.0)
    }

    /// Each value with its bitmap (one bit per row), in the order the values
    /// were first seen.
    pub closed spec fn entries(&self) -> Seq<(T, Seq<bool>)> {
        bitmap_entries(self.data@)
    }

    /// A bitmap column holding `vals`, inserted in order: it reads back as
    /// `vals` (each value as the first `==` value inserted), and keeps one
    /// bitmap per distinct non-null value, in the order first seen.
    pub fn from_values(vals: &Vec<Option<T>>) -> (r: BitMap<T>)
        requires
            vals@.len() <= row_limit(),
        ensures
            r.wf(),
            reads_all_as(r.items(), vals@),
            r.entry_values() == first_seen(vals@),
    {
        let mut col: BitMap<T> = BitMap::new();
        let mut i: usize = 0;
        assert(vals@.take(0) =~= Seq::<Option<T>>::empty());
        while i < vals.len()
            invariant
                col.wf(),
                i <= vals@.len(),
                vals@.len() <= row_limit(),
                reads_all_as(col.items(), vals@.take(i as int)),
                col.entry_values() == first_seen(vals@.take(i as int)),
            decreases vals@.len() - i,
        {
            proof {
                col.lemma_room();
            }
            let ghost before = col.items();
            let v = duplicate_option(&vals[i]);
            col.insert(v);
            proof {
                let t1 = vals@.take(i + 1);
                assert(t1.drop_last() =~= vals@.take(i as int));
                assert(t1.last() == vals@[i as int]);
                assert forall|k: int| 0 <= k < col.items().len() implies reads_as(#[trigger] col.items()[k], t1[k]) by {
                    if k < i {
                        assert(col.items()[k] == before[k]);
                        assert(vals@.take(i as int)[k] == t1[k]);
                    }
                }
            }
            i += 1;
        }
        assert(vals@.take(i as int) =~= vals@);
        col
    }

    /// In a well-formed bitmap column no two values with a bitmap are `==`;
    /// each bitmap has one bit per row; a row is marked in at most one
    /// bitmap, marked in a value's bitmap exactly when it reads as that value
    /// (a null row is marked nowhere).
    pub proof fn lemma_entries(&self)
        requires
            self.wf(),
        ensures
            values_distinct(self.entry_values()),
            self.entries().len() == self.entry_values().len(),
            forall|j: int| 0 <= j < self.entries().len() ==> (#[trigger] self.entries()[j]).0 == self.entry_values()[j]
                && self.entries()[j].1.len() == self.items().len(),
            one_mark_per_row(self.entries(), self.items().len() as int),
            forall|r: int, j: int| 0 <= r < self.items().len() && 0 <= j < self.entries().len() && #[trigger] self.entries()[j].1[r]
                ==> self.items()[r] == Some(self.entries()[j].0),
            forall|r: int| 0 <= r < self.items().len() ==> ((#[trigger] self.items()[r]) is None <==> forall|j: int|
                0 <= j < self.entries().len() ==> !self.entries()[j].1[r]),
    {
        let es = self.entries();
        assert forall|r: int, j: int| 0 <= r < self.items().len() && 0 <= j < es.len() && #[trigger] es[j].1[r]
            implies self.items()[r] == Some(es[j].0) by {
            assert forall|k: int| 0 <= k < j implies !(#[trigger] es[k]).1[r] by {
                if es[k].1[r] {
                    assert(!es[j].1[r]);
                }
            }
            lemma_row_value_first(es, r, j);
        }
        assert forall|r: int| 0 <= r < self.items().len() implies ((#[trigger] self.items()[r]) is None <==> forall|j: int|
            0 <= j < es.len() ==> !es[j].1[r]) by {
            if forall|j: int| 0 <= j < es.len() ==> !es[j].1[r] {
                lemma_row_value_first(es, r, es.len() as int);
            } else {
                let j = choose|j: int| 0 <= j < es.len() && es[j].1[r];
                assert(es[j].1[r]);
            }
        }
    }

    /// An empty column.
    pub fn new() -> (r: BitMap<T>)
        ensures
            r.wf(),
            r.items() == Seq::<Option<T>>::empty(),
    {
        let r = BitMap { data: Vec::new(), len: 0, size: 0 };
        assert(r.items() =~= Seq::<Option<T>>::empty());
        r
    }

    /// Appends bit `bit` to the bitmap of entry `j`.
    fn push_bit(&mut self, j: usize, bit: bool)
        requires
            j < old(self).data@.len(),
            bitvec_bits(old(self).data@[j as int].1).len() < max_bits(),
        ensures
            final(self).len == old(self).len,
            final(self).size == old(self).size,
            final(self).data@.len() == old(self).data@.len(),
            final(self).data@[j as int].0 == old(self).data@[j as int].0,
            bitvec_bits(final(self).data@[j as int].1) == bitvec_bits(old(self).data@[j as int].1).push(bit),
            forall|k: int| 0 <= k < final(self).data@.len() && k != j ==> #[trigger] final(self).data@[k] == old(self).data@[k],
    {
        bitvec_push(&mut self.data[j].1, bit);
    }
}

impl<T: ColumnItem> ColumnInterface<T> for BitMap<T> {
    open spec fn row_cap(&self) -> int {
        row_limit() as int
    }

    fn room(&self) -> (r: bool) {
        self.len < usize::MAX / 8 - 1
    }

    open spec fn keeps_values(&self) -> bool {
        false
    }

    open spec fn reported_len(&self) -> int {
        self.items().len() as int
    }

    closed spec fn items(&self) -> Seq<Option<T>> {
        Seq::new(self.len as nat, |i: int| row_value(bitmap_entries(self.data@), i))
    }

    closed spec fn wf(&self) -> bool {
        &&& self.size == self.data@.len()
        &&& self.data@.len() <= self.len
        &&& forall|j: int| 0 <= j < self.data@.len() ==> bitvec_bits(#[trigger] self.data@[j].1).len() == self.len
        &&& values_distinct(self.entry_values())
        &&& one_mark_per_row(bitmap_entries(self.data@), self.len as int)
    }

    closed spec fn has_room(&self) -> bool {
        self.len + 1 < max_bits()
    }

    proof fn lemma_room(&self) {
    }

    /// Marks the new row in the bitmap of the value `==` to the new one,
    /// adding a bitmap for a value not seen before; a null is marked nowhere.
    fn insert(&mut self, data: Option<T>)
        ensures
            data is None ==> final(self).entry_values() == old(self).entry_values(),
            data matches Some(x) ==> (has_same(old(self).entry_values(), x) ==> final(self).entry_values() == old(self).entry_values()),
            data matches Some(x) ==> (!has_same(old(self).entry_values(), x) ==> final(self).entry_values() == old(self).entry_values().push(x)),
    {
        let ghost old_entries = bitmap_entries(self.data@);
        let ghost old_vals = self.entry_values();
        let ghost old_len = self.len as int;
        if self.len == 0 {
            match data {
                Some(x) => {
                    let mut bits = bitvec_new();
                    bitvec_push(&mut bits, true);
                    self.data.push((x, bits));
                    self.size = self.size + 1;
                    proof {
                        lemma_row_value_first(bitmap_entries(self.data@), 0, 0);
                        assert(old_vals.len() == 0);
                        assert(self.entry_values() =~= old_vals.push(x));
                        assert(!has_same(old_vals, x));
                    }
                },
                None => {
                    proof {
                        lemma_row_value_first(bitmap_entries(self.data@), 0, 0);
                    }
                },
            }
        } else {
            match data {
                None => {
                    let mut j: usize = 0;
                    while j < self.size
                        invariant
                            self.size == self.data@.len(),
                            self.len == old_len,
                            self.len > 0,
                            self.data@.len() == old_entries.len(),
                            0 <= j <= self.data@.len(),
                            forall|k: int| 0 <= k < self.data@.len() ==> (#[trigger] self.data@[k]).0 == old_entries[k].0,
                            forall|k: int| 0 <= k < j ==> bitvec_bits(#[trigger] self.data@[k].1) == old_entries[k].1.push(false),
                            forall|k: int| j <= k < self.data@.len() ==> bitvec_bits(#[trigger] self.data@[k].1) == old_entries[k].1,
                            forall|k: int| 0 <= k < old_entries.len() ==> (#[trigger] old_entries[k]).1.len() == old_len,
                            old_len + 1 < max_bits(),
                        decreases self.data@.len() - j,
                    {
                        self.push_bit(j, false);
                        j += 1;
                    }
                    proof {
                        let es = bitmap_entries(self.data@);
                        lemma_row_value_first(es, old_len, es.len() as int);
                        assert forall|r: int| 0 <= r < old_len implies row_value(es, r) == row_value(old_entries, r) by {
                            lemma_row_value_same_bits(es, old_entries, r);
                        }
                        assert(self.entry_values() =~= old_vals);
                    }
                },
                Some(x) => {
                    // Locate the first entry whose value is `==` to the new one
                    let mut found: Option<usize> = None;
                    let mut j: usize = 0;
                    while j < self.size && found.is_none()
                        invariant
                            self.size == self.data@.len(),
                            j <= self.size,
                            found matches Some(i) ==> i < self.size && x.same(&self.data@[i as int].0),
                            found is None ==> forall|m: int| 0 <= m < j ==> !x.same(&(#[trigger] self.data@[m]).0),
                        decreases self.size - j, if found.is_none() { 1int } else { 0int },
                    {
                        if x.same_exec(&self.data[j].0) {
                            found = Some(j);
                        } else {
                            j += 1;
                        }
                    }
                    let ghost mid = self.data@;
                    match found {
                        Some(i) => {
                            let mut k: usize = 0;
                            while k < self.size
                                invariant
                                    self.size == self.data@.len(),
                                    self.len == old_len,
                                    self.data@.len() == old_entries.len(),
                                    i < self.data@.len(),
                                    0 <= k <= self.data@.len(),
                                    forall|m: int| 0 <= m < self.data@.len() ==> (#[trigger] self.data@[m]).0 == old_entries[m].0,
                                    forall|m: int| 0 <= m < k ==> bitvec_bits(#[trigger] self.data@[m].1) == old_entries[m].1.push(m == i),
                                    forall|m: int| k <= m < self.data@.len() ==> bitvec_bits(#[trigger] self.data@[m].1) == old_entries[m].1,
                                    forall|m: int| 0 <= m < old_entries.len() ==> (#[trigger] old_entries[m]).1.len() == old_len,
                                    old_len + 1 < max_bits(),
                                decreases self.data@.len() - k,
                            {
                                self.push_bit(k, k == i);
                                k += 1;
                            }
                            proof {
                                let es = bitmap_entries(self.data@);
                                lemma_row_value_first(es, old_len, i as int);
                                assert forall|r: int| 0 <= r < old_len implies row_value(es, r) == row_value(old_entries, r) by {
                                    lemma_row_value_same_bits(es, old_entries, r);
                                }
                                assert(self.entry_values() =~= old_vals);
                                assert(old_vals[i as int] == mid[i as int].0);
                                assert(has_same(old_vals, x));
                            }
                        },
                        None => {
                            let mut k: usize = 0;
                            while k < self.size
                                invariant
                                    self.size == self.data@.len(),
                                    self.len == old_len,
                                    self.data@.len() == old_entries.len(),
                                    0 <= k <= self.data@.len(),
                                    forall|m: int| 0 <= m < self.data@.len() ==> (#[trigger] self.data@[m]).0 == old_entries[m].0,
                                    forall|m: int| 0 <= m < k ==> bitvec_bits(#[trigger] self.data@[m].1) == old_entries[m].1.push(false),
                                    forall|m: int| k <= m < self.data@.len() ==> bitvec_bits(#[trigger] self.data@[m].1) == old_entries[m].1,
                                    forall|m: int| 0 <= m < old_entries.len() ==> (#[trigger] old_entries[m]).1.len() == old_len,
                                    old_len + 1 < max_bits(),
                                decreases self.data@.len() - k,
                            {
                                self.push_bit(k, false);
                                k += 1;
                            }
                            let mut bits = bitvec_new();
                            let mut m: usize = 0;
                            while m < self.len
                                invariant
                                    m <= self.len,
                                    self.len == old_len,
                                    old_len + 1 < max_bits(),
                                    bitvec_bits(bits) == Seq::new(m as nat, |_q: int| false),
                                decreases self.len - m,
                            {
                                bitvec_push(&mut bits, false);
                                m += 1;
                                assert(bitvec_bits(bits) =~= Seq::new(m as nat, |_q: int| false));
                            }
                            bitvec_push(&mut bits, true);
                            let ghost before = self.data@;
                            self.data.push((x, bits));
                            self.size = self.size + 1;
                            proof {
                                let es = bitmap_entries(self.data@);
                                let es0 = bitmap_entries(before);
                                assert forall|q: int| 0 <= q < es0.len() implies !(#[trigger] es[q]).1[old_len] by {
                                    assert(es[q] == es0[q]);
                                }
                                lemma_row_value_first(es, old_len, es0.len() as int);
                                assert forall|r: int| 0 <= r < old_len implies row_value(es, r) == row_value(old_entries, r) by {
                                    let tail = es.drop_last();
                                    assert(tail =~= es0);
                                    lemma_row_value_same_bits(es0, old_entries, r);
                                    assert(es =~= es0.push(es.last()));
                                    lemma_row_value_push_clear(es0, es.last(), r);
                                }
                                assert(self.entry_values() =~= old_vals.push(x));
                                assert forall|m: int| 0 <= m < old_vals.len() implies !x.same(&(#[trigger] old_vals[m])) by {
                                    assert(old_vals[m] == mid[m].0);
                                }
                                assert forall|m: int| 0 <= m < old_vals.len() implies !(#[trigger] old_vals[m]).same(&x) by {
                                    assert(old_vals[m] == mid[m].0);
                                    x.lemma_same_symmetric(&old_vals[m]);
                                }
                                assert(!has_same(old_vals, x));
                            }
                        },
                    }
                },
            }
        }
        self.len = self.len + 1;
        proof {
            assert(self.items().drop_last() =~= Seq::new(old_len as nat, |i: int| row_value(old_entries, i)));
        }
    }

    fn len(&self) -> (r: usize) {
        self.len
    }

    fn uncompress(&self) -> (r: Vec<Option<T>>) {
        let mut out: Vec<Option<T>> = Vec::new();
        let ghost es = bitmap_entries(self.data@);
        let mut r: usize = 0;
        while r < self.len
            invariant
                es == bitmap_entries(self.data@),
                self.wf(),
                r <= self.len,
                out@ == self.items().take(r as int),
            decreases self.len - r,
        {
            let mut j: usize = 0;
            let mut hit = false;
            while j < self.size && !hit
                invariant
                    es == bitmap_entries(self.data@),
                    self.wf(),
                    r < self.len,
                    j <= self.size,
                    hit ==> j < self.size && es[j as int].1[r as int],
                    forall|q: int| 0 <= q < j ==> !(#[trigger] es[q]).1[r as int],
                decreases self.size - j, if hit { 0int } else { 1int },
            {
                if bitvec_get(&self.data[j].1, r) {
                    hit = true;
                } else {
                    j += 1;
                }
            }
            let value = if hit {
                Some(self.data[j].0.duplicate())
            } else {
                None
            };
            proof {
                lemma_row_value_first(es, r as int, j as int);
            }
            out.push(value);
            r += 1;
            assert(out@ =~= self.items().take(r as int));
        }
        assert(self.items().take(r as int) =~= self.items());
        out
    }
}

/// An entry whose bitmap has bit `i` clear does not change row `i`.
proof fn lemma_row_value_push_clear<T>(a: Seq<(T, Seq<bool>)>, e: (T, Seq<bool>), i: int)
    requires
        !e.1[i],
    ensures
        row_value(a.push(e), i) == row_value(a, i),
    decreases a.len(),
{
    if a.len() > 0 {
        assert(a.push(e)[0] == a[0]);
        lemma_row_value_push_clear(a.drop_first(), e, i);
        assert(a.push(e).drop_first() =~= a.drop_first().push(e));
    } else {
        assert(a.push(e).drop_first() =~= a);
    }
}


// ---------------------------------------------------------------------------
// XOR (delta) encoding of numbers
// ---------------------------------------------------------------------------

/// The low `n` bits of `v`, lowest first.
pub open spec fn bits_le(v: u64, n: nat) -> Seq<bool> {
    Seq::new(n, |i: int| (v >> (i as u64)) & 1u64 == 1u64)
}

/// `v` with every bit at position `n` or above cleared.
pub open spec fn low_bits(v: u64, n: u64) -> u64 {
    v & !(0xffff_ffff_ffff_ffffu64 << n)
}

proof fn lemma_low_bits_zero(v: u64)
    ensures
        low_bits(v, 0) == 0,
{
    assert(v & !(0xffff_ffff_ffff_ffffu64 << 0u64) == 0) by (bit_vector);
}

proof fn lemma_low_bits_step(v: u64, i: u64, b: bool)
    requires
        i < 64,
        b == ((v >> i) & 1u64 == 1u64),
    ensures
        low_bits(v, i) | ((if b { 1u64 } else { 0u64 }) << i) == low_bits(v, (i + 1) as u64),
{
    assert(i < 64 && b == ((v >> i) & 1u64 == 1u64) ==> (v & !(0xffff_ffff_ffff_ffffu64 << i)) | ((
    if b {
        1u64
    } else {
        0u64
    }) << i) == v & !(0xffff_ffff_ffff_ffffu64 << ((i + 1) as u64))) by (bit_vector);
}

proof fn lemma_low_bits_full(v: u64)
    ensures
        low_bits(v, 64) == v,
{
    assert(v & !(0xffff_ffff_ffff_ffffu64 << 64u64) == v) by (bit_vector);
}

/// A value below `2^n` keeps all its bits.
proof fn lemma_low_bits_small(v: u64, n: u64)
    requires
        n <= 64,
        n < 64 ==> v >> n == 0,
    ensures
        low_bits(v, n) == v,
{
    assert(n <= 64 && (n < 64 ==> v >> n == 0) ==> v & !(0xffff_ffff_ffff_ffffu64 << n) == v)
        by (bit_vector);
}

/// The fields the XOR encoding keeps of a non-zero difference `d`: the number
/// of leading zeros (at most 31, so that it fits in five bits), the number of
/// trailing zeros, and the width of what is left between them.
pub open spec fn xor_lead(d: u64) -> u32 {
    if u64_leading_zeros(d) > 31 {
        31u32
    } else {
        u64_leading_zeros(d) as u32
    }
}

pub open spec fn xor_trail(d: u64) -> u32 {
    u64_trailing_zeros(d)
}

pub open spec fn xor_width(d: u64) -> u32 {
    (64 - xor_lead(d) - xor_trail(d)) as u32
}

/// What the XOR encoder remembers between rows: the previous value, and the
/// leading and trailing zero counts it stored last.
pub type XorState = (Option<u64>, u32, u32);

/// The bits that stand for one row, given the encoder's state, and the
/// encoder's next state.
pub open spec fn xor_chunk(st: XorState, item: Option<Num>) -> (Seq<bool>, XorState) {
    match item {
        None => (seq![false], st),
        Some(n) => {
            let x = n.0;
            match st.0 {
                None => (seq![true] + bits_le(x, 64), (Some(x), st.1, st.2)),
                Some(y) => {
                    let d = x ^ y;
                    if d == 0 {
                        (seq![true, false], (Some(x), st.1, st.2))
                    } else {
                        let l = xor_lead(d);
                        let t = xor_trail(d);
                        let m = xor_width(d);
                        let mb = d >> (t as u64);
                        if l == st.1 && t == st.2 {
                            (seq![true, true, false] + bits_le(mb, m as nat), (Some(x), l, t))
                        } else {
                            (
                                seq![true, true, true] + bits_le(l as u64, 5) + bits_le(
                                    m as u64,
                                    6,
                                ) + bits_le(mb, m as nat),
                                (Some(x), l, t),
                            )
                        }
                    }
                },
            }
        },
    }
}

/// The bits that stand for a sequence of rows, and the encoder's state after
/// them.
pub open spec fn xor_encode(items: Seq<Option<Num>>) -> (Seq<bool>, XorState)
    decreases items.len(),
{
    if items.len() == 0 {
        (Seq::empty(), (None, 0u32, 0u32))
    } else {
        let (b, st) = xor_encode(items.drop_last());
        let (c, st2) = xor_chunk(st, items.last());
        (b + c, st2)
    }
}

/// Appends the low `n` bits of `v`, lowest first.
fn push_bits(bits: &mut Bits, v: u64, n: u64)
    requires
        n <= 64,
        bitvec_bits(*old(bits)).len() + n < max_bits(),
    ensures
        bitvec_bits(*final(bits)) == bitvec_bits(*old(bits)) + bits_le(v, n as nat),
{
    let ghost start = bitvec_bits(*bits);
    let mut i: u64 = 0;
    while i < n
        invariant
            i <= n,
            n <= 64,
            start.len() + n < max_bits(),
            bitvec_bits(*bits) == start + bits_le(v, i as nat),
        decreases n - i,
    {
        bitvec_push(bits, (v >> i) & 1 == 1);
        i += 1;
        assert(bitvec_bits(*bits) =~= start + bits_le(v, i as nat));
    }
}

/// Reads `n` bits starting at `index`, lowest first, into a number. When those
/// bits are the low `n` bits of `v`, the result is `v` with the higher bits
/// cleared.
fn read_bits(bits: &Bits, index: usize, n: u64, Ghost(v): Ghost<u64>) -> (r: u64)
    requires
        n <= 64,
        index + n <= bitvec_bits(*bits).len(),
        bitvec_bits(*bits).len() < max_bits(),
        forall|j: int| 0 <= j < n ==> bitvec_bits(*bits)[index + j] == #[trigger] bits_le(v, n as nat)[j],
    ensures
        r == low_bits(v, n),
{
    let mut acc: u64 = 0;
    let mut i: u64 = 0;
    proof {
        lemma_low_bits_zero(v);
    }
    while i < n
        invariant
            i <= n,
            n <= 64,
            index + n <= bitvec_bits(*bits).len(),
            bitvec_bits(*bits).len() < max_bits(),
            forall|j: int| 0 <= j < n ==> bitvec_bits(*bits)[index + j] == #[trigger] bits_le(v, n as nat)[j],
            acc == low_bits(v, i),
        decreases n - i,
    {
        let b = bitvec_get(bits, index + i as usize);
        assert(b == bits_le(v, n as nat)[i as int]);
        proof {
            lemma_low_bits_step(v, i, b);
        }
        acc = acc | ((if b { 1u64 } else { 0u64 }) << i);
        i += 1;
    }
    acc
}

/// How a non-zero XOR difference splits: shifting out its trailing zeros and
/// back loses nothing, what is left fits in the width between the (capped)
/// leading zeros and the trailing zeros, and XORing it back onto the previous
/// value gives the new value.
proof fn lemma_xor_split_bv(x: u64, y: u64, d: u64, t: u64, lz: u64, l: u64)
    by (bit_vector)
    requires
        d == x ^ y,
        t < 64,
        lz < 64,
        l <= lz,
        (d >> t) & 1u64 == 1u64,
        d << ((64 - t) as u64) == 0,
        d >> ((64 - lz) as u64) == 0,
    ensures
        l + t < 64,
        (d >> t) << t == d,
        y ^ ((d >> t) << t) == x,
        (d >> t) >> ((64 - l - t) as u64) == 0,
{
}

proof fn lemma_xor_split(x: u64, y: u64)
    requires
        x ^ y != 0,
    ensures
        ({
            let d = x ^ y;
            let t = xor_trail(d) as u64;
            let l = xor_lead(d) as u64;
            &&& l <= 31
            &&& t < 64
            &&& l + t < 64
            &&& xor_width(d) as u64 == 64 - l - t
            &&& 1 <= xor_width(d) <= 64
            &&& y ^ ((d >> t) << t) == x
            &&& low_bits(d >> t, xor_width(d) as u64) == d >> t
        }),
{
    let d = x ^ y;
    axiom_u64_trailing_zeros(d);
    axiom_u64_leading_zeros(d);
    let t = u64_trailing_zeros(d) as u64;
    let lz = u64_leading_zeros(d) as u64;
    let l = xor_lead(d) as u64;
    lemma_xor_split_bv(x, y, d, t, lz, l);
    let w = (64 - l - t) as u64;
    lemma_low_bits_small(d >> t, w);
}

/// The six-bit field that holds a width from 1 to 64 holds 64 as 0.
proof fn lemma_width_field(m: u64)
    requires
        1 <= m <= 64,
    ensures
        low_bits(m, 6) == (if m == 64 { 0u64 } else { m }),
{
    assert(1 <= m <= 64 ==> m & !(0xffff_ffff_ffff_ffffu64 << 6u64) == (if m == 64 {
        0u64
    } else {
        m
    })) by (bit_vector);
}

/// The stored counts of the encoder never exceed what fits in their fields.
proof fn lemma_xor_state(items: Seq<Option<Num>>)
    ensures
        xor_encode(items).1.1 <= 31,
        xor_encode(items).1.1 + xor_encode(items).1.2 < 64,
    decreases items.len(),
{
    if items.len() > 0 {
        lemma_xor_state(items.drop_last());
        let st = xor_encode(items.drop_last()).1;
        if let Some(n) = items.last() {
            if let Some(y) = st.0 {
                if n.0 ^ y != 0 {
                    lemma_xor_split(n.0, y);
                }
            }
        }
    }
}

/// Every row takes at least one bit.
proof fn lemma_xor_chunk_nonempty(st: XorState, item: Option<Num>)
    ensures
        xor_chunk(st, item).0.len() >= 1,
        xor_chunk(st, item).0.len() <= 141,
{
    if let Some(n) = item {
        if let Some(y) = st.0 {
            if n.0 ^ y != 0 {
                lemma_xor_split(n.0, y);
            }
        }
    }
}

/// The encoding of the first `k + 1` rows is the encoding of the first `k`
/// followed by the chunk of row `k`, and it is a prefix of the encoding of all
/// rows.
proof fn lemma_xor_prefix(items: Seq<Option<Num>>, k: int)
    requires
        0 <= k < items.len(),
    ensures
        xor_encode(items.take(k + 1)).0 =~= xor_encode(items.take(k)).0 + xor_chunk(
            xor_encode(items.take(k)).1,
            items[k],
        ).0,
        xor_encode(items.take(k + 1)).1 == xor_chunk(xor_encode(items.take(k)).1, items[k]).1,
        xor_encode(items.take(k + 1)).0.len() <= xor_encode(items).0.len(),
        xor_encode(items).0.subrange(0, xor_encode(items.take(k + 1)).0.len() as int)
            =~= xor_encode(items.take(k + 1)).0,
    decreases items.len() - k,
{
    assert(items.take(k + 1).drop_last() =~= items.take(k));
    if k + 1 == items.len() {
        assert(items.take(k + 1) =~= items);
    } else {
        lemma_xor_prefix(items.drop_last(), k);
        assert(items.drop_last().take(k) =~= items.take(k));
        assert(items.drop_last().take(k + 1) =~= items.take(k + 1));
    }
}

/// Each row takes at most 141 bits.
proof fn lemma_xor_encode_len(items: Seq<Option<Num>>)
    ensures
        xor_encode(items).0.len() <= 141 * items.len(),
    decreases items.len(),
{
    if items.len() > 0 {
        lemma_xor_encode_len(items.drop_last());
        lemma_xor_chunk_nonempty(xor_encode(items.drop_last()).1, items.last());
    }
}

/// A number column that stores each value as its XOR with the previous one,
/// keeping only the bits between the XOR's leading and trailing zeros.
pub struct XorCol {
    data: Bits,
    len: usize,
    prev_value: Option<u64>,
    prev_num_leading: u32,
    prev_num_trailing: u32,
    rows: Ghost<Seq<Option<Num>>>,
}

impl XorCol {
    /// An empty column.
    pub fn new() -> (r: XorCol)
        ensures
            r.wf(),
            r.items() == Seq::<Option<Num>>::empty(),
    {
        let data = bitvec_new();
        XorCol {
            data,
            len: 9,
            prev_value: None,
            prev_num_leading: 0,
            prev_num_trailing: 0,
            rows: Ghost(Seq::empty()),
        }
    }
}

impl ColumnInterface<Num> for XorCol {
    open spec fn row_cap(&self) -> int {
        row_limit() as int
    }

    fn room(&self) -> (r: bool) {
        bitvec_len(&self.data) < usize::MAX / 8 - 142 && self.len < usize::MAX
    }

    open spec fn keeps_values(&self) -> bool {
        true
    }

    /// The count starts at 9, so an XOR column reports 9 rows more than it
    /// holds.
    open spec fn reported_len(&self) -> int {
        self.items().len() as int + 9
    }

    closed spec fn items(&self) -> Seq<Option<Num>> {
        self.rows@
    }

    closed spec fn wf(&self) -> bool {
        &&& bitvec_bits(self.data) == xor_encode(self.rows@).0
        &&& self.prev_value == xor_encode(self.rows@).1.0
        &&& self.prev_num_leading == xor_encode(self.rows@).1.1
        &&& self.prev_num_trailing == xor_encode(self.rows@).1.2
        &&& self.len == self.rows@.len() + 9
        &&& bitvec_bits(self.data).len() < max_bits()
    }

    closed spec fn has_room(&self) -> bool {
        &&& bitvec_bits(self.data).len() + 142 < max_bits()
        &&& self.len < usize::MAX
    }

    proof fn lemma_room(&self) {
        lemma_xor_encode_len(self.rows@);
    }

    /// Appends the value itself.
    fn insert(&mut self, data: Option<Num>)
        ensures
            final(self).items() == old(self).items().push(data),
    {
        let ghost old_rows = self.rows@;
        let ghost old_bits = bitvec_bits(self.data);
        let ghost st: XorState = (self.prev_value, self.prev_num_leading, self.prev_num_trailing);
        proof {
            lemma_xor_state(old_rows);
        }
        match data {
            None => bitvec_push(&mut self.data, false),
            Some(n) => {
                let x = n.0;
                bitvec_push(&mut self.data, true);
                match self.prev_value {
                    None => push_bits(&mut self.data, x, 64),
                    Some(y) => {
                        let d = x ^ y;
                        if d == 0 {
                            bitvec_push(&mut self.data, false);
                        } else {
                            bitvec_push(&mut self.data, true);
                            proof {
                                lemma_xor_split(x, y);
                            }
                            let lz = d.leading_zeros();
                            let l: u32 = if lz > 31 { 31 } else { lz };
                            let t: u32 = d.trailing_zeros();
                            let m: u32 = 64 - l - t;
                            let meaningful = d >> (t as u64);
                            if l == self.prev_num_leading && t == self.prev_num_trailing {
                                bitvec_push(&mut self.data, false);
                                push_bits(&mut self.data, meaningful, m as u64);
                            } else {
                                self.prev_num_leading = l;
                                self.prev_num_trailing = t;
                                bitvec_push(&mut self.data, true);
                                push_bits(&mut self.data, l as u64, 5);
                                push_bits(&mut self.data, m as u64, 6);
                                push_bits(&mut self.data, meaningful, m as u64);
                            }
                        }
                    },
                }
                self.prev_value = Some(x);
            },
        }
        self.len = self.len + 1;
        self.rows = Ghost(old_rows.push(data));
        proof {
            assert(self.rows@.drop_last() =~= old_rows);
            assert(bitvec_bits(self.data) =~= old_bits + xor_chunk(st, data).0);
        }
    }

    fn len(&self) -> (r: usize) {
        self.len
    }

    fn uncompress(&self) -> (r: Vec<Option<Num>>) {
        let mut out: Vec<Option<Num>> = Vec::new();
        let total = bitvec_len(&self.data);
        let mut index: usize = 0;
        let mut base: Option<u64> = None;
        let mut prev_leading: u32 = 0;
        let mut prev_trailing: u32 = 0;
        let ghost rows = self.rows@;
        let ghost full = xor_encode(rows).0;
        proof {
            assert(rows.take(0) =~= Seq::<Option<Num>>::empty());
        }
        while index < total
            invariant
                self.wf(),
                rows == self.rows@,
                full == xor_encode(rows).0,
                total == full.len(),
                out@.len() <= rows.len(),
                out@ == rows.take(out@.len() as int),
                index == xor_encode(rows.take(out@.len() as int)).0.len(),
                base == xor_encode(rows.take(out@.len() as int)).1.0,
                prev_leading == xor_encode(rows.take(out@.len() as int)).1.1,
                prev_trailing == xor_encode(rows.take(out@.len() as int)).1.2,
                index <= total,
            decreases total - index,
        {
            let ghost k = out@.len() as int;
            let ghost st = xor_encode(rows.take(k)).1;
            proof {
                if k == rows.len() as int {
                    assert(rows.take(k) =~= rows);
                }
                lemma_xor_prefix(rows, k);
                lemma_xor_state(rows.take(k));
                lemma_xor_chunk_nonempty(st, rows[k]);
            }
            let ghost c = xor_chunk(st, rows[k]).0;
            let ghost start = index as int;
            proof {
                assert(full.subrange(0, start + c.len()) =~= xor_encode(rows.take(k)).0 + c);
                assert forall|j: int| 0 <= j < c.len() implies full[start + j] == c[j] by {
                    assert(full.subrange(0, start + c.len())[start + j] == full[start + j]);
                }
            }
            let (item, next, b, pl, pt) = decode_row(
                &self.data,
                index,
                base,
                prev_leading,
                prev_trailing,
                Ghost(rows[k]),
            );
            index = next;
            base = b;
            prev_leading = pl;
            prev_trailing = pt;
            out.push(item);
            assert(out@ =~= rows.take(k + 1));
        }
        proof {
            let k = out@.len() as int;
            if k < rows.len() as int {
                lemma_xor_prefix(rows, k);
                lemma_xor_chunk_nonempty(xor_encode(rows.take(k)).1, rows[k]);
            }
        }
        assert(out@ =~= rows);
        out
    }
}

/// The bits from `index` on are the chunk `c`.
pub open spec fn chunk_at(bits: Seq<bool>, index: int, c: Seq<bool>) -> bool {
    &&& 0 <= index
    &&& index + c.len() <= bits.len()
    &&& forall|j: int| 0 <= j < c.len() ==> bits[index + j] == #[trigger] c[j]
}

/// Decodes the row whose chunk starts at `index`, given the decoder's state
/// (the same as the encoder's state before that row). Returns the row, the
/// index after the chunk and the next state.
fn decode_row(
    bits: &Bits,
    index: usize,
    base: Option<u64>,
    prev_leading: u32,
    prev_trailing: u32,
    Ghost(item): Ghost<Option<Num>>,
) -> (r: (Option<Num>, usize, Option<u64>, u32, u32))
    requires
        bitvec_bits(*bits).len() < max_bits(),
        prev_leading <= 31,
        prev_leading + prev_trailing < 64,
        chunk_at(
            bitvec_bits(*bits),
            index as int,
            xor_chunk((base, prev_leading, prev_trailing), item).0,
        ),
    ensures
        r.0 == item,
        r.1 == index + xor_chunk((base, prev_leading, prev_trailing), item).0.len(),
        (r.2, r.3, r.4) == xor_chunk((base, prev_leading, prev_trailing), item).1,
{
    let ghost st: XorState = (base, prev_leading, prev_trailing);
    let ghost c = xor_chunk(st, item).0;
    proof {
        lemma_xor_chunk_nonempty(st, item);
    }
    assert(bitvec_bits(*bits)[index as int + 0] == c[0]);
    let first = bitvec_get(bits, index);
    if !first {
        return (None, index + 1, base, prev_leading, prev_trailing);
    }
    let ghost x = item.unwrap().0;
    match base {
        None => {
            assert forall|j: int| 0 <= j < 64 implies bitvec_bits(*bits)[index + 1 + j]
                == #[trigger] bits_le(x, 64)[j] by {
                assert(c[1 + j] == bits_le(x, 64)[j]);
                assert(bitvec_bits(*bits)[index + (1 + j)] == c[1 + j]);
            }
            let v = read_bits(bits, index + 1, 64, Ghost(x));
            proof {
                lemma_low_bits_full(x);
            }
            (Some(Num(v)), index + 65, Some(v), prev_leading, prev_trailing)
        },
        Some(y) => {
            let (v, next, pl, pt) = decode_delta(
                bits,
                index + 1,
                y,
                prev_leading,
                prev_trailing,
                Ghost(x),
                Ghost(index as int),
            );
            (Some(Num(v)), next, Some(v), pl, pt)
        },
    }
}

/// Decodes a value stored as its XOR with the previous value `y`, from the
/// bit after the row's leading `1`.
fn decode_delta(
    bits: &Bits,
    index: usize,
    y: u64,
    prev_leading: u32,
    prev_trailing: u32,
    Ghost(x): Ghost<u64>,
    Ghost(start): Ghost<int>,
) -> (r: (u64, usize, u32, u32))
    requires
        bitvec_bits(*bits).len() < max_bits(),
        prev_leading <= 31,
        prev_leading + prev_trailing < 64,
        index == start + 1,
        chunk_at(
            bitvec_bits(*bits),
            start,
            xor_chunk((Some(y), prev_leading, prev_trailing), Some(Num(x))).0,
        ),
    ensures
        r.0 == x,
        r.1 == start + xor_chunk((Some(y), prev_leading, prev_trailing), Some(Num(x))).0.len(),
        (Some(r.0), r.2, r.3) == xor_chunk(
            (Some(y), prev_leading, prev_trailing),
            Some(Num(x)),
        ).1,
{
    let ghost st: XorState = (Some(y), prev_leading, prev_trailing);
    let ghost c = xor_chunk(st, Some(Num(x))).0;
    let ghost full = bitvec_bits(*bits);
    assert(full[start + 1] == c[1]);
    let differs = bitvec_get(bits, index);
    if !differs {
        proof {
            assert((x ^ y) == 0 ==> x == y) by (bit_vector);
        }
        return (y, index + 1, prev_leading, prev_trailing);
    }
    let ghost d = x ^ y;
    proof {
        lemma_xor_split(x, y);
    }
    let ghost t = xor_trail(d);
    let ghost l = xor_lead(d);
    let ghost m = xor_width(d);
    let ghost mb = d >> (t as u64);
    assert(full[start + 2] == c[2]);
    let control = bitvec_get(bits, index + 1);
    if !control {
        let width: u32 = 64 - prev_leading - prev_trailing;
        assert forall|j: int| 0 <= j < width implies full[index + 2 + j]
            == #[trigger] bits_le(mb, width as nat)[j] by {
            assert(c[3 + j] == bits_le(mb, m as nat)[j]);
            assert(full[start + (3 + j)] == c[3 + j]);
        }
        let meaningful = read_bits(bits, index + 2, width as u64, Ghost(mb));
        let v = y ^ (meaningful << (prev_trailing as u64));
        (v, index + 2 + width as usize, prev_leading, prev_trailing)
    } else {
        assert forall|j: int| 0 <= j < 5 implies full[index + 2 + j]
            == #[trigger] bits_le(l as u64, 5)[j] by {
            assert(c[3 + j] == bits_le(l as u64, 5)[j]);
            assert(full[start + (3 + j)] == c[3 + j]);
        }
        let lead_field = read_bits(bits, index + 2, 5, Ghost(l as u64));
        assert forall|j: int| 0 <= j < 6 implies full[index + 7 + j]
            == #[trigger] bits_le(m as u64, 6)[j] by {
            assert(c[8 + j] == bits_le(m as u64, 6)[j]);
            assert(full[start + (8 + j)] == c[8 + j]);
        }
        let width_field = read_bits(bits, index + 7, 6, Ghost(m as u64));
        proof {
            assert((l as u64) <= 31 ==> (l as u64) >> 5u64 == 0) by (bit_vector);
            lemma_low_bits_small(l as u64, 5);
            lemma_width_field(m as u64);
        }
        let width: u64 = if width_field == 0 {
            64
        } else {
            width_field
        };
        let trail: u32 = (64 - width - lead_field) as u32;
        assert forall|j: int| 0 <= j < width implies full[index + 13 + j]
            == #[trigger] bits_le(mb, width as nat)[j] by {
            assert(c[14 + j] == bits_le(mb, m as nat)[j]);
            assert(full[start + (14 + j)] == c[14 + j]);
        }
        let meaningful = read_bits(bits, index + 13, width, Ghost(mb));
        let v = y ^ (meaningful << (trail as u64));
        (v, index + 13 + width as usize, lead_field as u32, trail)
    }
}


/// A column of numbers, in one of the four storage schemes.
pub enum NumColumn {
    /// Values kept as they are.
    Uncompressed(Uncompressed<Num>),
    /// Run-length encoded.
    RunLength(RunLength<Num>),
    /// One bitmap per distinct value.
    BitMap(BitMap<Num>),
    /// Each value XORed with the previous one.
    Xor(XorCol),
}

impl ColumnInterface<Num> for NumColumn {
    open spec fn row_cap(&self) -> int {
        match self {
            NumColumn::Uncompressed(c) => c.row_cap(),
            NumColumn::RunLength(c) => c.row_cap(),
            NumColumn::BitMap(c) => c.row_cap(),
            NumColumn::Xor(c) => c.row_cap(),
        }
    }

    fn room(&self) -> (r: bool) {
        match self {
            NumColumn::Uncompressed(c) => c.room(),
            NumColumn::RunLength(c) => c.room(),
            NumColumn::BitMap(c) => c.room(),
            NumColumn::Xor(c) => c.room(),
        }
    }

    open spec fn keeps_values(&self) -> bool {
        match self {
            NumColumn::Uncompressed(_) => true,
            NumColumn::RunLength(_) => false,
            NumColumn::BitMap(_) => false,
            NumColumn::Xor(_) => true,
        }
    }

    open spec fn reported_len(&self) -> int {
        match self {
            NumColumn::Uncompressed(c) => c.reported_len(),
            NumColumn::RunLength(c) => c.reported_len(),
            NumColumn::BitMap(c) => c.reported_len(),
            NumColumn::Xor(c) => c.reported_len(),
        }
    }

    open spec fn items(&self) -> Seq<Option<Num>> {
        match self {
            NumColumn::Uncompressed(c) => c.items(),
            NumColumn::RunLength(c) => c.items(),
            NumColumn::BitMap(c) => c.items(),
            NumColumn::Xor(c) => c.items(),
        }
    }

    open spec fn wf(&self) -> bool {
        match self {
            NumColumn::Uncompressed(c) => c.wf(),
            NumColumn::RunLength(c) => c.wf(),
            NumColumn::BitMap(c) => c.wf(),
            NumColumn::Xor(c) => c.wf(),
        }
    }

    open spec fn has_room(&self) -> bool {
        match self {
            NumColumn::Uncompressed(c) => c.has_room(),
            NumColumn::RunLength(c) => c.has_room(),
            NumColumn::BitMap(c) => c.has_room(),
            NumColumn::Xor(c) => c.has_room(),
        }
    }

    proof fn lemma_room(&self) {
        match self {
            NumColumn::Uncompressed(c) => c.lemma_room(),
            NumColumn::RunLength(c) => c.lemma_room(),
            NumColumn::BitMap(c) => c.lemma_room(),
            NumColumn::Xor(c) => c.lemma_room(),
        }
    }

    fn insert(&mut self, data: Option<Num>)
        ensures
            final(self).scheme() == old(self).scheme(),
    {
        match self {
            NumColumn::Uncompressed(c) => c.insert(data),
            NumColumn::RunLength(c) => c.insert(data),
            NumColumn::BitMap(c) => c.insert(data),
            NumColumn::Xor(c) => c.insert(data),
        }
    }

    fn len(&self) -> (r: usize) {
        match self {
            NumColumn::Uncompressed(c) => c.len(),
            NumColumn::RunLength(c) => c.len(),
            NumColumn::BitMap(c) => c.len(),
            NumColumn::Xor(c) => c.len(),
        }
    }

    fn uncompress(&self) -> (r: Vec<Option<Num>>) {
        match self {
            NumColumn::Uncompressed(c) => c.uncompress(),
            NumColumn::RunLength(c) => c.uncompress(),
            NumColumn::BitMap(c) => c.uncompress(),
            NumColumn::Xor(c) => c.uncompress(),
        }
    }
}

impl NumColumn {
    /// The storage scheme, by variant.
    pub open spec fn scheme(&self) -> CompressType {
        match self {
            NumColumn::Uncompressed(_) => CompressType::Uncompressed,
            NumColumn::RunLength(_) => CompressType::RunLength,
            NumColumn::BitMap(_) => CompressType::BitMap,
            NumColumn::Xor(_) => CompressType::Xor,
        }
    }
}

/// A column of booleans.
pub enum BoolColumn {
    /// Packed into bits.
    Packed(BoolCol),
    /// Values kept as they are (the form computed columns are built in).
    Uncompressed(Uncompressed<bool>),
}

impl ColumnInterface<bool> for BoolColumn {
    open spec fn row_cap(&self) -> int {
        match self {
            BoolColumn::Packed(c) => c.row_cap(),
            BoolColumn::Uncompressed(c) => c.row_cap(),
        }
    }

    fn room(&self) -> (r: bool) {
        match self {
            BoolColumn::Packed(c) => c.room(),
            BoolColumn::Uncompressed(c) => c.room(),
        }
    }

    open spec fn keeps_values(&self) -> bool {
        match self {
            BoolColumn::Packed(_) => true,
            BoolColumn::Uncompressed(_) => true,
        }
    }

    open spec fn reported_len(&self) -> int {
        match self {
            BoolColumn::Packed(c) => c.reported_len(),
            BoolColumn::Uncompressed(c) => c.reported_len(),
        }
    }

    open spec fn items(&self) -> Seq<Option<bool>> {
        match self {
            BoolColumn::Packed(c) => c.items(),
            BoolColumn::Uncompressed(c) => c.items(),
        }
    }

    open spec fn wf(&self) -> bool {
        match self {
            BoolColumn::Packed(c) => c.wf(),
            BoolColumn::Uncompressed(c) => c.wf(),
        }
    }

    open spec fn has_room(&self) -> bool {
        match self {
            BoolColumn::Packed(c) => c.has_room(),
            BoolColumn::Uncompressed(c) => c.has_room(),
        }
    }

    proof fn lemma_room(&self) {
        match self {
            BoolColumn::Packed(c) => c.lemma_room(),
            BoolColumn::Uncompressed(c) => c.lemma_room(),
        }
    }

    fn insert(&mut self, data: Option<bool>) {
        match self {
            BoolColumn::Packed(c) => c.insert(data),
            BoolColumn::Uncompressed(c) => c.insert(data),
        }
    }

    fn len(&self) -> (r: usize) {
        match self {
            BoolColumn::Packed(c) => c.len(),
            BoolColumn::Uncompressed(c) => c.len(),
        }
    }

    fn uncompress(&self) -> (r: Vec<Option<bool>>) {
        match self {
            BoolColumn::Packed(c) => c.uncompress(),
            BoolColumn::Uncompressed(c) => c.uncompress(),
        }
    }
}

/// A column of strings, in one of the three schemes that strings support.
pub enum StrColumn {
    /// Values kept as they are.
    Uncompressed(Uncompressed<String>),
    /// Run-length encoded.
    RunLength(RunLength<String>),
    /// One bitmap per distinct value.
    BitMap(BitMap<String>),
}

impl StrColumn {
    /// The storage scheme, by variant.
    pub open spec fn scheme(&self) -> CompressType {
        match self {
            StrColumn::Uncompressed(_) => CompressType::Uncompressed,
            StrColumn::RunLength(_) => CompressType::RunLength,
            StrColumn::BitMap(_) => CompressType::BitMap,
        }
    }
}

impl ColumnInterface<String> for StrColumn {
    open spec fn row_cap(&self) -> int {
        match self {
            StrColumn::Uncompressed(c) => c.row_cap(),
            StrColumn::RunLength(c) => c.row_cap(),
            StrColumn::BitMap(c) => c.row_cap(),
        }
    }

    fn room(&self) -> (r: bool) {
        match self {
            StrColumn::Uncompressed(c) => c.room(),
            StrColumn::RunLength(c) => c.room(),
            StrColumn::BitMap(c) => c.room(),
        }
    }

    open spec fn keeps_values(&self) -> bool {
        match self {
            StrColumn::Uncompressed(_) => true,
            StrColumn::RunLength(_) => false,
            StrColumn::BitMap(_) => false,
        }
    }

    open spec fn reported_len(&self) -> int {
        match self {
            StrColumn::Uncompressed(c) => c.reported_len(),
            StrColumn::RunLength(c) => c.reported_len(),
            StrColumn::BitMap(c) => c.reported_len(),
        }
    }

    open spec fn items(&self) -> Seq<Option<String>> {
        match self {
            StrColumn::Uncompressed(c) => c.items(),
            StrColumn::RunLength(c) => c.items(),
            StrColumn::BitMap(c) => c.items(),
        }
    }

    open spec fn wf(&self) -> bool {
        match self {
            StrColumn::Uncompressed(c) => c.wf(),
            StrColumn::RunLength(c) => c.wf(),
            StrColumn::BitMap(c) => c.wf(),
        }
    }

    open spec fn has_room(&self) -> bool {
        match self {
            StrColumn::Uncompressed(c) => c.has_room(),
            StrColumn::RunLength(c) => c.has_room(),
            StrColumn::BitMap(c) => c.has_room(),
        }
    }

    proof fn lemma_room(&self) {
        match self {
            StrColumn::Uncompressed(c) => c.lemma_room(),
            StrColumn::RunLength(c) => c.lemma_room(),
            StrColumn::BitMap(c) => c.lemma_room(),
        }
    }

    fn insert(&mut self, data: Option<String>)
        ensures
            final(self).scheme() == old(self).scheme(),
    {
        match self {
            StrColumn::Uncompressed(c) => c.insert(data),
            StrColumn::RunLength(c) => c.insert(data),
            StrColumn::BitMap(c) => c.insert(data),
        }
    }

    fn len(&self) -> (r: usize) {
        match self {
            StrColumn::Uncompressed(c) => c.len(),
            StrColumn::RunLength(c) => c.len(),
            StrColumn::BitMap(c) => c.len(),
        }
    }

    fn uncompress(&self) -> (r: Vec<Option<String>>) {
        match self {
            StrColumn::Uncompressed(c) => c.uncompress(),
            StrColumn::RunLength(c) => c.uncompress(),
            StrColumn::BitMap(c) => c.uncompress(),
        }
    }
}

/// A column of a table, by the type of its values.
pub enum Column {
    /// A number column.
    Number(NumColumn),
    /// A boolean column.
    Boolean(BoolColumn),
    /// A string column.
    String(StrColumn),
}

impl Column {
    /// The storage scheme, by variant: booleans, packed or not, are stored
    /// without compression.
    pub open spec fn scheme(&self) -> CompressType {
        match self {
            Column::Number(c) => c.scheme(),
            Column::Boolean(_) => CompressType::Uncompressed,
            Column::String(c) => c.scheme(),
        }
    }

    /// The column's internal invariant.
    pub open spec fn wf(&self) -> bool {
        match self {
            Column::Number(c) => c.wf(),
            Column::Boolean(c) => c.wf(),
            Column::String(c) => c.wf(),
        }
    }

    /// The column can take one more row.
    pub open spec fn has_room(&self) -> bool {
        match self {
            Column::Number(c) => c.has_room(),
            Column::Boolean(c) => c.has_room(),
            Column::String(c) => c.has_room(),
        }
    }

    /// The number of rows the column reports: its rows, nine more for an
    /// XOR column.
    pub open spec fn reported_len(&self) -> int {
        match self {
            Column::Number(c) => c.reported_len(),
            Column::Boolean(c) => c.reported_len(),
            Column::String(c) => c.reported_len(),
        }
    }

    /// The number of rows the column holds.
    pub open spec fn row_count(&self) -> nat {
        match self {
            Column::Number(c) => c.items().len(),
            Column::Boolean(c) => c.items().len(),
            Column::String(c) => c.items().len(),
        }
    }

    /// Below how many rows the column surely has room for one more (see
    /// `ColumnInterface::row_cap`).
    pub open spec fn row_cap(&self) -> int {
        match self {
            Column::Number(c) => c.row_cap(),
            Column::Boolean(c) => c.row_cap(),
            Column::String(c) => c.row_cap(),
        }
    }

    /// A column with fewer than `row_cap()` rows has room for one more; the
    /// cap is at least `row_limit()`, and the largest `usize` for a plain
    /// number or string column.
    pub proof fn lemma_room(&self)
        requires
            self.wf(),
        ensures
            self.row_cap() >= row_limit(),
            self.scheme() == CompressType::Uncompressed && !(self is Boolean) ==> self.row_cap() == usize::MAX,
            self.row_count() < self.row_cap() ==> self.has_room(),
    {
        assert(row_limit() < usize::MAX);
        match self {
            Column::Number(c) => if c.items().len() < c.row_cap() {
                c.lemma_room();
            },
            Column::Boolean(c) => if c.items().len() < c.row_cap() {
                c.lemma_room();
            },
            Column::String(c) => if c.items().len() < c.row_cap() {
                c.lemma_room();
            },
        }
    }

    /// Whether the column can take one more row.
    pub fn room(&self) -> (r: bool)
        requires
            self.wf(),
        ensures
            r == self.has_room(),
    {
        match self {
            Column::Number(c) => c.room(),
            Column::Boolean(c) => c.room(),
            Column::String(c) => c.room(),
        }
    }

    /// The number of rows the column reports (see `reported_len`).
    pub fn len(&self) -> (r: usize)
        requires
            self.wf(),
        ensures
            r == self.reported_len(),
    {
        match self {
            Column::Number(c) => c.len(),
            Column::Boolean(c) => c.len(),
            Column::String(c) => c.len(),
        }
    }
}
/// Inserts `vals` in order into an empty column store: reading the store
/// back then gives each value inserted (or, where a store shares one copy
/// among `==` values, the first of them), in order.
pub fn insert_all<T: ColumnItem, C: ColumnInterface<T>>(col: &mut C, vals: &Vec<Option<T>>)
    requires
        old(col).wf(),
        old(col).items().len() == 0,
        vals@.len() <= old(col).row_cap(),
    ensures
        final(col).wf(),
        reads_all_as(final(col).items(), vals@),
        old(col).keeps_values() ==> final(col).items() == vals@,
{
    let mut i: usize = 0;
    while i < vals.len()
        invariant
            col.wf(),
            i <= vals@.len(),
            vals@.len() <= col.row_cap(),
            reads_all_as(col.items(), vals@.take(i as int)),
            col.keeps_values() == old(col).keeps_values(),
            old(col).keeps_values() ==> col.items() == vals@.take(i as int),
        decreases vals@.len() - i,
    {
        proof {
            col.lemma_room();
        }
        let ghost before = col.items();
        col.insert(duplicate_option(&vals[i]));
        proof {
            assert forall|k: int| 0 <= k < col.items().len() implies reads_as(
                #[trigger] col.items()[k],
                vals@.take(i + 1)[k],
            ) by {
                if k < i {
                    assert(col.items()[k] == before[k]);
                    assert(vals@.take(i as int)[k] == vals@.take(i + 1)[k]);
                }
            }
            if old(col).keeps_values() {
                assert(col.items() =~= vals@.take(i + 1));
            }
        }
        i += 1;
    }
    assert(vals@.take(i as int) =~= vals@);
}

} // verus!
