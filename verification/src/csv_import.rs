//! Reading a CSV file into a table: which column of the file feeds each
//! column of the table, and what the text of each cell stands for.
use vstd::prelude::*;
use crate::table::{Table, has_name, first_index_of, col_type};
use crate::types::{ColType, Val};

verus! {

/// `c` is white space in Unicode's sense (the `White_Space` property): the
/// characters that `str::trim` removes.
pub open spec fn is_space(c: char) -> bool {
    let n = c as u32;
    ||| 0x09 <= n <= 0x0d
    ||| n == 0x20
    ||| n == 0x85
    ||| n == 0xa0
    ||| n == 0x1680
    ||| 0x2000 <= n <= 0x200a
    ||| n == 0x2028
    ||| n == 0x2029
    ||| n == 0x202f
    ||| n == 0x205f
    ||| n == 0x3000
}

/// `s` without its leading white space.
pub open spec fn trim_start(s: Seq<char>) -> Seq<char>
    decreases s.len(),
{
    if s.len() > 0 && is_space(s[0]) {
        trim_start(s.drop_first())
    } else {
        s
    }
}

/// `s` without its trailing white space.
pub open spec fn trim_end(s: Seq<char>) -> Seq<char>
    decreases s.len(),
{
    if s.len() > 0 && is_space(s.last()) {
        trim_end(s.drop_last())
    } else {
        s
    }
}

/// `s` without leading and trailing white space.
pub open spec fn trimmed(s: Seq<char>) -> Seq<char> {
    trim_end(trim_start(s))
}

/// Each of `hs`, trimmed.
pub open spec fn trimmed_all(hs: Seq<Seq<char>>) -> Seq<Seq<char>> {
    hs.map_values(|h: Seq<char>| trimmed(h))
}

/// The texts of a list of strings.
pub open spec fn strs(v: Seq<String>) -> Seq<Seq<char>> {
    v.map_values(|s: String| s@)
}

/// The texts of a record, if it was read.
pub open spec fn opt_strs(v: Option<Vec<String>>) -> Option<Seq<Seq<char>>> {
    match v {
        Some(x) => Some(strs(x@)),
        None => None,
    }
}

/// A CSV file read as text: its header line and its records, `None` for a
/// record that could not be read.
pub open spec fn csv_view(r: Option<(Vec<String>, Vec<Option<Vec<String>>>)>) -> Option<(Seq<Seq<char>>, Seq<Option<Seq<Seq<char>>>>)> {
    match r {
        Some((h, recs)) => Some((strs(h@), recs@.map_values(|o: Option<Vec<String>>| opt_strs(o)))),
        None => None,
    }
}

/// What the csv crate reads from the bytes `data` (a header line first):
/// `None` when the header line cannot be read, else the header fields and,
/// for each further record, its fields or `None` when it cannot be read.
pub uninterp spec fn csv_table(data: Seq<u8>) -> Option<(Seq<Seq<char>>, Seq<Option<Seq<Seq<char>>>>)>;

/// Reads `data` as CSV with `csv::Reader` (default settings: the first
/// record is the header line). Claimed: the result is `csv_table(data)`, a
/// function of the bytes alone; what that function is, is left to the crate.
#[verifier::external_body]
fn csv_read(data: &Vec<u8>) -> (r: Option<(Vec<String>, Vec<Option<Vec<String>>>)>)
    ensures
        csv_view(r) == csv_table(data@),
{
    let mut rdr = csv::Reader::from_reader(data.as_slice());
    let headers: Vec<String> = match rdr.headers() {
        Ok(h) => h.iter().map(|f| f.to_string()).collect(),
        Err(_) => return None,
    };
    let records = rdr.records().map(|rec| match rec {
        Ok(fields) => Some(fields.iter().map(|f| f.to_string()).collect()),
        Err(_) => None,
    }).collect();
    Some((headers, records))
}

/// Whether `c` is white space.
fn is_space_char(c: char) -> (r: bool)
    ensures
        r == is_space(c),
{
    let n = c as u32;
    (0x09 <= n && n <= 0x0d) || n == 0x20 || n == 0x85 || n == 0xa0 || n == 0x1680
        || (0x2000 <= n && n <= 0x200a) || n == 0x2028 || n == 0x2029 || n == 0x202f
        || n == 0x205f || n == 0x3000
}

/// Dropping white space from the front of a sequence whose first `lo`
/// characters are white space gives what dropping it from the rest gives.
proof fn lemma_trim_start_from(s: Seq<char>, lo: int)
    requires
        0 <= lo <= s.len(),
        forall|j: int| 0 <= j < lo ==> is_space(#[trigger] s[j]),
    ensures
        trim_start(s) == trim_start(s.subrange(lo, s.len() as int)),
    decreases lo,
{
    if lo > 0 {
        lemma_trim_start_from(s, lo - 1);
        let t = s.subrange(lo - 1, s.len() as int);
        assert(t[0] == s[lo - 1]);
        assert(t.drop_first() =~= s.subrange(lo, s.len() as int));
    } else {
        assert(s.subrange(0, s.len() as int) =~= s);
    }
}

/// Dropping white space from the back of a sequence whose characters from
/// `hi` on are white space gives what dropping it from the part before
/// `hi` gives.
proof fn lemma_trim_end_to(s: Seq<char>, hi: int)
    requires
        0 <= hi <= s.len(),
        forall|j: int| hi <= j < s.len() ==> is_space(#[trigger] s[j]),
    ensures
        trim_end(s) == trim_end(s.subrange(0, hi)),
    decreases s.len() - hi,
{
    if hi < s.len() {
        lemma_trim_end_to(s, hi + 1);
        let t = s.subrange(0, hi + 1);
        assert(t.last() == s[hi]);
        assert(t.drop_last() =~= s.subrange(0, hi));
    } else {
        assert(s.subrange(0, s.len() as int) =~= s);
    }
}

/// `s` without leading and trailing white space.
pub fn trim(s: &str) -> (r: String)
    ensures
        r@ == trimmed(s@),
{
    let n = s.unicode_len();
    let mut lo: usize = 0;
    while lo < n && is_space_char(s.get_char(lo))
        invariant
            n == s@.len(),
            lo <= n,
            forall|j: int| 0 <= j < lo ==> is_space(#[trigger] s@[j]),
        decreases n - lo,
    {
        lo += 1;
    }
    let ghost u = s@.subrange(lo as int, n as int);
    proof {
        lemma_trim_start_from(s@, lo as int);
        if lo < n {
            assert(u[0] == s@[lo as int]);
        }
        assert(trim_start(s@) == u);
    }
    let mut hi: usize = n;
    while hi > lo && is_space_char(s.get_char(hi - 1))
        invariant
            n == s@.len(),
            lo <= hi <= n,
            u == s@.subrange(lo as int, n as int),
            forall|j: int| hi <= j < n ==> is_space(#[trigger] s@[j]),
        decreases hi - lo,
    {
        hi -= 1;
    }
    proof {
        let k = hi - lo;
        assert forall|j: int| k <= j < u.len() implies is_space(#[trigger] u[j]) by {
            assert(u[j] == s@[lo + j]);
        }
        lemma_trim_end_to(u, k);
        let w = u.subrange(0, k);
        assert(w =~= s@.subrange(lo as int, hi as int));
        if k > 0 {
            assert(w.last() == s@[hi - 1]);
        }
        assert(trim_end(w) == w);
    }
    String::from_str(s.substring_char(lo, hi))
}

/// Where column `i` of `table` is read from, given the trimmed header fields
/// `ts`: `None` when no field is the column's name, else the column's type and
/// the index of the first such field.
pub open spec fn source_ok(table: Table, ts: Seq<Seq<char>>, i: int, src: Option<(ColType, usize)>) -> bool {
    &&& src is None == !has_name(ts, table.header_names()[i])
    &&& src matches Some((t, k)) ==> t == col_type(table.columns()[i]) && first_index_of(
        ts,
        table.header_names()[i],
        k as int,
    )
}

/// For each column of `table`, where a CSV file whose header line is
/// `csv_headers` supplies it: the column's type and the index of the first
/// file column whose trimmed header is the column's name, or `None` when no
/// file column has that name.
pub fn csv_columns(table: &Table, csv_headers: &Vec<String>) -> (r: Vec<Option<(ColType, usize)>>)
    requires
        table.wf(),
    ensures
        r@.len() == table.header_names().len(),
        forall|i: int| 0 <= i < r@.len() ==> #[trigger] source_ok(*table, trimmed_all(strs(csv_headers@)), i, r@[i]),
{
    proof {
        table.lemma_wf();
    }
    let headers = table.get_headers();
    let types = table.get_col_types();
    let ghost hs = table.header_names();
    let ghost ts = trimmed_all(strs(csv_headers@));
    let mut trims: Vec<String> = Vec::new();
    let mut j: usize = 0;
    while j < csv_headers.len()
        invariant
            ts == trimmed_all(strs(csv_headers@)),
            j <= csv_headers@.len(),
            trims@.len() == j,
            forall|q: int| 0 <= q < j ==> #[trigger] trims@[q]@ == ts[q],
        decreases csv_headers@.len() - j,
    {
        trims.push(trim(csv_headers[j].as_str()));
        j += 1;
    }
    let mut out: Vec<Option<(ColType, usize)>> = Vec::new();
    let mut i: usize = 0;
    while i < headers.len()
        invariant
            hs == headers@.map_values(|h: String| h@),
            hs == table.header_names(),
            hs.len() == table.columns().len(),
            types@.len() == table.columns().len(),
            forall|c: int| 0 <= c < types@.len() ==> #[trigger] types@[c] == col_type(table.columns()[c]),
            ts == trimmed_all(strs(csv_headers@)),
            trims@.len() == ts.len(),
            forall|q: int| 0 <= q < ts.len() ==> #[trigger] trims@[q]@ == ts[q],
            i <= headers@.len(),
            out@.len() == i,
            forall|p: int| 0 <= p < i ==> #[trigger] source_ok(*table, ts, p, out@[p]),
        decreases headers@.len() - i,
    {
        let mut k: usize = 0;
        let mut found: Option<usize> = None;
        while k < trims.len()
            invariant_except_break
                found is None,
            invariant
                trims@.len() == ts.len(),
                forall|q: int| 0 <= q < ts.len() ==> #[trigger] trims@[q]@ == ts[q],
                i < headers@.len(),
                hs == headers@.map_values(|h: String| h@),
                k <= trims@.len(),
                forall|q: int| 0 <= q < k ==> ts[q] != hs[i as int],
            ensures
                found matches Some(f) ==> first_index_of(ts, hs[i as int], f as int),
                found is None ==> !has_name(ts, hs[i as int]),
            decreases trims@.len() - k,
        {
            if trims[k] == headers[i] {
                assert(ts[k as int] == hs[i as int]);
                found = Some(k);
                break;
            }
            k += 1;
        }
        let entry = match found {
            Some(f) => Some((types[i], f)),
            None => None,
        };
        out.push(entry);
        i += 1;
    }
    out
}

/// What the text of one CSV cell stands for in a column of a given type.
pub enum CsvCell {
    /// The value to store.
    Value(Val),
    /// A number, still as text: it is read as a binary64 float.
    NumberText(String),
}

/// The error for a cell of a boolean column that is neither `true` nor
/// `false`.
pub open spec fn boolean_refusal(text: Seq<char>) -> Seq<char> {
    "Unexpeced boolean value "@ + text + ". Expect either true or false"@
}

/// `r` is what the text `text` of a CSV cell stands for in a column of type
/// `ctype`: an empty cell is null; a boolean cell is `true` or `false` and
/// nothing else; a number cell is a number's text; a string cell is its text.
pub open spec fn cell_outcome(ctype: ColType, text: Seq<char>, r: Result<CsvCell, String>) -> bool {
    if text.len() == 0 {
        r matches Ok(CsvCell::Value(Val::NullVal))
    } else {
        match ctype {
            ColType::Boolean => if text == "true"@ {
                r matches Ok(CsvCell::Value(Val::BoolVal(b))) && b
            } else if text == "false"@ {
                r matches Ok(CsvCell::Value(Val::BoolVal(b))) && !b
            } else {
                r matches Err(e) && e@ == boolean_refusal(text)
            },
            ColType::Number => r matches Ok(CsvCell::NumberText(s)) && s@ == text,
            ColType::String => r matches Ok(CsvCell::Value(Val::StrVal(s))) && s@ == text,
        }
    }
}

/// What the text of a CSV cell stands for in a column of type `ctype`: an
/// empty cell is null; a boolean cell is `true` or `false` and nothing else;
/// a number cell is a number's text; a string cell is its text.
pub fn csv_cell(ctype: ColType, text: &String) -> (r: Result<CsvCell, String>)
    ensures
        cell_outcome(ctype, text@, r),
{
    if text.as_str().unicode_len() == 0 {
        return Ok(CsvCell::Value(Val::NullVal));
    }
    match ctype {
        ColType::Boolean => {
            if *text == String::from_str("true") {
                Ok(CsvCell::Value(Val::BoolVal(true)))
            } else if *text == String::from_str("false") {
                Ok(CsvCell::Value(Val::BoolVal(false)))
            } else {
                let msg = String::from_str("Unexpeced boolean value ").concat(text.as_str()).concat(
                    ". Expect either true or false",
                );
                Err(msg)
            }
        },
        ColType::Number => Ok(CsvCell::NumberText(text.clone())),
        ColType::String => Ok(CsvCell::Value(Val::StrVal(text.clone()))),
    }
}

/// Every field a column of `table` is read from (given the trimmed header
/// fields `ts`) is a field of a record of `n` fields.
pub open spec fn record_covers(table: Table, ts: Seq<Seq<char>>, n: int) -> bool {
    forall|i: int, k: int| 0 <= i < table.header_names().len() && #[trigger] first_index_of(ts, table.header_names()[i], k)
        ==> k < n
}

/// `row` is what the record `rec` gives for the columns of `table`, given
/// the trimmed header fields `ts`: for column `i`, null when no field is its
/// name, else what the first such field's text stands for in the column.
pub open spec fn row_outcome(table: Table, ts: Seq<Seq<char>>, rec: Seq<Seq<char>>, row: Seq<Result<CsvCell, String>>) -> bool {
    &&& row.len() == table.header_names().len()
    &&& forall|i: int| 0 <= i < row.len() ==> (!has_name(ts, table.header_names()[i]) ==> #[trigger] row[i] matches Ok(CsvCell::Value(Val::NullVal)))
    &&& forall|i: int, k: int| #![trigger row[i], first_index_of(ts, table.header_names()[i], k)]
        0 <= i < row.len() && first_index_of(ts, table.header_names()[i], k)
        ==> cell_outcome(col_type(table.columns()[i]), rec[k], row[i])
}

/// `rows` is what the records `recs` give for the columns of `table`: a
/// record that could not be read gives `None` (it is skipped).
pub open spec fn rows_outcome(
    table: Table,
    ts: Seq<Seq<char>>,
    recs: Seq<Option<Seq<Seq<char>>>>,
    rows: Seq<Option<Vec<Result<CsvCell, String>>>>,
) -> bool {
    &&& rows.len() == recs.len()
    &&& forall|k: int| 0 <= k < rows.len() ==> (#[trigger] rows[k] is None) == (recs[k] is None)
    &&& forall|k: int| 0 <= k < rows.len() && rows[k] is Some ==> row_outcome(table, ts, recs[k]->0, (#[trigger] rows[k])->0@)
}

/// For each record of a CSV file whose header line is `headers`, what its
/// fields give for the columns of `table`; `None` for a record that could
/// not be read. Every field a column is read from must be in each record.
pub fn csv_rows(table: &Table, headers: &Vec<String>, records: &Vec<Option<Vec<String>>>) -> (r: Vec<Option<Vec<Result<CsvCell, String>>>>)
    requires
        table.wf(),
        forall|k: int| 0 <= k < records@.len() && (#[trigger] records@[k]) is Some ==> record_covers(
            *table,
            trimmed_all(strs(headers@)),
            records@[k]->0@.len() as int,
        ),
    ensures
        rows_outcome(*table, trimmed_all(strs(headers@)), records@.map_values(|o: Option<Vec<String>>| opt_strs(o)), r@),
{
    let ghost ts = trimmed_all(strs(headers@));
    let ghost recs = records@.map_values(|o: Option<Vec<String>>| opt_strs(o));
    let sources = csv_columns(table, headers);
    proof {
        table.lemma_wf();
    }
    let mut out: Vec<Option<Vec<Result<CsvCell, String>>>> = Vec::new();
    let mut k: usize = 0;
    while k < records.len()
        invariant
            table.wf(),
            ts == trimmed_all(strs(headers@)),
            recs == records@.map_values(|o: Option<Vec<String>>| opt_strs(o)),
            sources@.len() == table.header_names().len(),
            forall|i: int| 0 <= i < sources@.len() ==> #[trigger] source_ok(*table, ts, i, sources@[i]),
            forall|q: int| 0 <= q < records@.len() && (#[trigger] records@[q]) is Some ==> record_covers(
                *table,
                ts,
                records@[q]->0@.len() as int,
            ),
            k <= records@.len(),
            out@.len() == k,
            forall|q: int| 0 <= q < k ==> (#[trigger] out@[q] is None) == (recs[q] is None),
            forall|q: int| 0 <= q < k && out@[q] is Some ==> row_outcome(*table, ts, recs[q]->0, (#[trigger] out@[q])->0@),
        decreases records@.len() - k,
    {
        match &records[k] {
            None => {
                out.push(None);
            },
            Some(rec) => {
                assert(records@[k as int] is Some);
                assert(recs[k as int] == Some(strs(rec@)));
                let mut row: Vec<Result<CsvCell, String>> = Vec::new();
                let mut i: usize = 0;
                while i < sources.len()
                    invariant
                        ts == trimmed_all(strs(headers@)),
                        sources@.len() == table.header_names().len(),
                        forall|c: int| 0 <= c < sources@.len() ==> #[trigger] source_ok(*table, ts, c, sources@[c]),
                        record_covers(*table, ts, rec@.len() as int),
                        i <= sources@.len(),
                        row@.len() == i,
                        forall|c: int| 0 <= c < i ==> (!has_name(ts, table.header_names()[c]) ==> #[trigger] row@[c] matches Ok(CsvCell::Value(Val::NullVal))),
                        forall|c: int, q: int| #![trigger row@[c], first_index_of(ts, table.header_names()[c], q)]
                            0 <= c < i && first_index_of(ts, table.header_names()[c], q)
                            ==> cell_outcome(col_type(table.columns()[c]), strs(rec@)[q], row@[c]),
                    decreases sources@.len() - i,
                {
                    assert(source_ok(*table, ts, i as int, sources@[i as int]));
                    let cell = match sources[i] {
                        None => Ok(CsvCell::Value(Val::NullVal)),
                        Some((t, q)) => {
                            assert(first_index_of(ts, table.header_names()[i as int], q as int));
                            csv_cell(t, &rec[q])
                        },
                    };
                    proof {
                        assert forall|q2: int| first_index_of(ts, table.header_names()[i as int], q2) implies cell_outcome(
                            col_type(table.columns()[i as int]),
                            strs(rec@)[q2],
                            cell,
                        ) by {
                            if let Some((t, q)) = sources@[i as int] {
                                if q2 < q {
                                    assert(ts[q2] == table.header_names()[i as int]);
                                } else if q < q2 {
                                    assert(ts[q as int] == table.header_names()[i as int]);
                                }
                                assert(strs(rec@)[q as int] == rec@[q as int]@);
                            }
                        }
                    }
                    row.push(cell);
                    i += 1;
                }
                out.push(Some(row));
            },
        }
        k += 1;
    }
    out
}

/// What importing the CSV text `data` into `table` reads.
pub struct CsvImport {
    /// Where each column of the table is read from (see `csv_columns`).
    pub sources: Vec<Option<(ColType, usize)>>,
    /// What each record gives for the table's columns (see `csv_rows`).
    pub rows: Vec<Option<Vec<Result<CsvCell, String>>>>,
}

/// Reads the CSV text `data` (header line first) for `table`: an error when
/// the header line cannot be read; `None` when a record that was read lacks
/// a field some column is read from; else where each column is read from
/// and what each record gives.
pub fn csv_import(table: &Table, data: &Vec<u8>) -> (r: Result<Option<CsvImport>, String>)
    requires
        table.wf(),
    ensures
        csv_table(data@) is None <==> r is Err,
        r matches Err(e) ==> e@ == "Error reading CSV headers"@,
        csv_table(data@) matches Some((hs, recs)) ==> {
            let ts = trimmed_all(hs);
            let covered = forall|k: int| 0 <= k < recs.len() && (#[trigger] recs[k]) is Some ==> record_covers(
                *table,
                ts,
                recs[k]->0.len() as int,
            );
            &&& r matches Ok(o) && (o is Some <==> covered)
            &&& r matches Ok(Some(imp)) ==> {
                &&& imp.sources@.len() == table.header_names().len()
                &&& forall|i: int| 0 <= i < imp.sources@.len() ==> #[trigger] source_ok(*table, ts, i, imp.sources@[i])
                &&& rows_outcome(*table, ts, recs, imp.rows@)
            }
        },
{
    let read = csv_read(data);
    let (headers, records) = match read {
        None => return Err(String::from_str("Error reading CSV headers")),
        Some(x) => x,
    };
    let ghost ts = trimmed_all(strs(headers@));
    let ghost recs = records@.map_values(|o: Option<Vec<String>>| opt_strs(o));
    assert(csv_table(data@) == Some((strs(headers@), recs)));
    let sources = csv_columns(table, &headers);
    proof {
        table.lemma_wf();
    }
    let mut k: usize = 0;
    while k < records.len()
        invariant
            csv_table(data@) == Some((strs(headers@), recs)),
            ts == trimmed_all(strs(headers@)),
            recs == records@.map_values(|o: Option<Vec<String>>| opt_strs(o)),
            sources@.len() == table.header_names().len(),
            forall|i: int| 0 <= i < sources@.len() ==> #[trigger] source_ok(*table, ts, i, sources@[i]),
            k <= records@.len(),
            forall|q: int| 0 <= q < k && (#[trigger] records@[q]) is Some ==> record_covers(*table, ts, records@[q]->0@.len() as int),
        decreases records@.len() - k,
    {
        if let Some(rec) = &records[k] {
            let mut i: usize = 0;
            while i < sources.len()
                invariant
                    csv_table(data@) == Some((strs(headers@), recs)),
                    ts == trimmed_all(strs(headers@)),
                    recs == records@.map_values(|o: Option<Vec<String>>| opt_strs(o)),
                    k < records@.len(),
                    records@[k as int] is Some,
                    records@[k as int]->0 == *rec,
                    sources@.len() == table.header_names().len(),
                    forall|c: int| 0 <= c < sources@.len() ==> #[trigger] source_ok(*table, ts, c, sources@[c]),
                    i <= sources@.len(),
                    forall|c: int, q: int| 0 <= c < i && #[trigger] first_index_of(ts, table.header_names()[c], q) ==> q < rec@.len(),
                decreases sources@.len() - i,
            {
                assert(source_ok(*table, ts, i as int, sources@[i as int]));
                if let Some((_, q)) = sources[i] {
                    if q >= rec.len() {
                        proof {
                            assert(recs[k as int] == opt_strs(records@[k as int]));
                            assert(recs[k as int]->0.len() == rec@.len());
                            assert(first_index_of(ts, table.header_names()[i as int], q as int));
                        }
                        return Ok(None);
                    }
                }
                proof {
                    assert forall|q2: int| #[trigger] first_index_of(ts, table.header_names()[i as int], q2) implies q2 < rec@.len() by {
                        if let Some((_, q)) = sources@[i as int] {
                            if q2 < q {
                                assert(ts[q2] == table.header_names()[i as int]);
                            } else if q < q2 {
                                assert(ts[q as int] == table.header_names()[i as int]);
                            }
                        }
                    }
                }
                i += 1;
            }
            assert(record_covers(*table, ts, rec@.len() as int));
        }
        k += 1;
    }
    let rows = csv_rows(table, &headers, &records);
    Ok(Some(CsvImport { sources, rows }))
}

} // verus!
