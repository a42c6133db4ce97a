//! Texts of single cells and index labels: the CSV field of a cell, the CSV
//! text of a label, and the index column of the text layout.

use vstd::prelude::*;
use vstd::string::*;
use crate::frame::{texts, Column, ColumnView, Frame, FrameView, Index, IndexKind, IndexKindView};
use crate::error::VolasError;
use crate::render::{plain_cells, spec_plain_cells, spec_vertical_body, vertical_body};
use crate::select::{column_pos, is_first_pos, ints, pos_range};
use crate::text::{i64_text, int_text, nat_digits, push_zero_padded, u64_text, zero_padded};
use crate::time_frame::{civil_parts, spec_civil_parts, tz_ok, Tz};

verus! {

/// Whether the instant `ns` is exactly midnight on the wall clock of `tz`.
pub open spec fn spec_is_midnight(ns: int, tz: Tz) -> bool {
    let p = spec_civil_parts(ns, tz);
    p.4 == 0 && p.5 == 0 && p.6 == 0 && ns % 1_000_000_000 == 0
}

/// The `YYYY-MM-DD` wall-clock date of the instant `ns` in `tz`.
pub open spec fn spec_fmt_date(ns: int, tz: Tz) -> Seq<char> {
    let p = spec_civil_parts(ns, tz);
    zero_padded(p.1, 4) + seq!['-'] + zero_padded(p.2, 2) + seq!['-'] + zero_padded(p.3, 2)
}

/// Whether the instant `ns` falls exactly on midnight in `tz` (a datetime
/// index of pure dates is shown date-only).
pub fn is_midnight(ns: i64, tz: Tz) -> (r: bool)
    requires
        tz_ok(tz),
    ensures
        r == spec_is_midnight(ns as int, tz),
{
    let p = civil_parts(ns, tz);
    p.4 == 0 && p.5 == 0 && p.6 == 0 && crate::civil::mod_floor(ns, 1_000_000_000) == 0
}

/// The instant `ns` as a `YYYY-MM-DD` date in `tz`.
pub fn fmt_date(ns: i64, tz: Tz) -> (r: String)
    requires
        tz_ok(tz),
    ensures
        r@ == spec_fmt_date(ns as int, tz),
{
    proof {
        reveal_strlit("-");
    }
    let p = civil_parts(ns, tz);
    let mut out = String::new();
    push_zero_padded(&mut out, p.1, 4);
    out.append("-");
    push_zero_padded(&mut out, p.2, 2);
    out.append("-");
    push_zero_padded(&mut out, p.3, 2);
    assert(out@ =~= spec_fmt_date(ns as int, tz));
    out
}

/// The CSV field of row `i` of an integer, bool or text column: the number,
/// `True` / `False`, or the text itself; `None` for a datetime column.
pub open spec fn spec_cell_to_csv(col: ColumnView, i: int) -> Option<Seq<char>> {
    match col {
        ColumnView::I64(v) => Some(int_text(v[i] as int)),
        ColumnView::Bool(v) => Some(if v[i] { "True"@ } else { "False"@ }),
        ColumnView::Str(v) => Some(v[i]),
        ColumnView::Datetime(_) => None,
    }
}

/// Format row `i` of a column as a CSV field (see [`spec_cell_to_csv`]).
pub fn cell_to_csv(col: &Column, i: usize) -> (r: Option<String>)
    requires
        i < col@.len(),
    ensures
        match r {
            Some(s) => spec_cell_to_csv(col@, i as int) == Some(s@),
            None => spec_cell_to_csv(col@, i as int) is None,
        },
{
    match col {
        Column::I64(v) => Some(i64_text(v[i])),
        Column::Bool(v) => Some(if v[i] { "True".to_owned() } else { "False".to_owned() }),
        Column::Str(v) => {
            assert(texts(v@)[i as int] == v@[i as int]@);
            Some(v[i].clone())
        },
        Column::Datetime(_) => None,
    }
}

/// The CSV text of row label `i`: the position of a range index, the integer
/// or the text; `None` for a datetime index.
pub open spec fn spec_index_label_csv(kind: IndexKindView, i: int) -> Option<Seq<char>> {
    match kind {
        IndexKindView::Range(_) => Some(nat_digits(i as nat)),
        IndexKindView::Int64(v) => Some(int_text(v[i] as int)),
        IndexKindView::Str(v) => Some(v[i]),
        IndexKindView::Datetime(_, _) => None,
    }
}

/// Format row label `i` as a CSV field (see [`spec_index_label_csv`]).
pub fn index_label_csv(index: &Index, i: usize) -> (r: Option<String>)
    requires
        i < index@.kind.len(),
    ensures
        match r {
            Some(s) => spec_index_label_csv(index@.kind, i as int) == Some(s@),
            None => spec_index_label_csv(index@.kind, i as int) is None,
        },
{
    match &index.kind {
        IndexKind::Range(_) => Some(u64_text(i as u64)),
        IndexKind::Int64(v) => Some(i64_text(v[i])),
        IndexKind::Str(v) => {
            assert(texts(v@)[i as int] == v@[i as int]@);
            Some(v[i].clone())
        },
        IndexKind::Datetime(_, _) => None,
    }
}

/// Whether every instant of `v` at `rows` is a wall-clock midnight in `tz`.
pub open spec fn all_midnight(v: Seq<i64>, tz: Tz, rows: Seq<usize>) -> bool {
    forall|k: int| 0 <= k < rows.len() ==> spec_is_midnight(v[#[trigger] rows[k] as int] as int, tz)
}

/// The index column texts of the labels at `rows`: positions, integers or
/// texts, and for a datetime index whose shown instants are all midnights,
/// their dates. `None` for a datetime index with a time of day among the
/// shown rows.
pub open spec fn spec_index_cells(kind: IndexKindView, rows: Seq<usize>) -> Option<Seq<Seq<char>>> {
    match kind {
        IndexKindView::Range(_) => Some(rows.map_values(|i: usize| nat_digits(i as nat))),
        IndexKindView::Int64(v) => Some(rows.map_values(|i: usize| int_text(v[i as int] as int))),
        IndexKindView::Str(v) => Some(rows.map_values(|i: usize| v[i as int])),
        IndexKindView::Datetime(v, tz) => if all_midnight(v, tz, rows) {
            Some(rows.map_values(|i: usize| spec_fmt_date(v[i as int] as int, tz)))
        } else {
            None
        },
    }
}

/// Format the index labels at `rows` (see [`spec_index_cells`]).
pub fn index_cells(index: &Index, rows: &Vec<usize>) -> (r: Option<Vec<String>>)
    requires
        forall|k: int| 0 <= k < rows@.len() ==> rows@[k] < index@.kind.len(),
        match index@.kind {
            IndexKindView::Datetime(_, tz) => tz_ok(tz),
            _ => true,
        },
    ensures
        match r {
            Some(v) => spec_index_cells(index@.kind, rows@) == Some(texts(v@)),
            None => spec_index_cells(index@.kind, rows@) is None,
        },
{
    let ghost kind = index@.kind;
    if let IndexKind::Datetime(v, tz) = &index.kind {
        let mut k: usize = 0;
        while k < rows.len()
            invariant
                kind == index@.kind,
                kind == IndexKindView::Datetime(v@, *tz),
                tz_ok(*tz),
                forall|q: int| 0 <= q < rows@.len() ==> rows@[q] < v@.len(),
                k <= rows@.len(),
                forall|q: int| 0 <= q < k ==> spec_is_midnight(v@[#[trigger] rows@[q] as int] as int, *tz),
            decreases rows.len() - k,
        {
            if !is_midnight(v[rows[k]], *tz) {
                return None;
            }
            k = k + 1;
        }
    }
    let mut out: Vec<String> = Vec::new();
    let mut k: usize = 0;
    while k < rows.len()
        invariant
            kind == index@.kind,
            forall|q: int| 0 <= q < rows@.len() ==> rows@[q] < index@.kind.len(),
            match index@.kind {
                IndexKindView::Datetime(v, tz) => tz_ok(tz) && all_midnight(v, tz, rows@),
                _ => true,
            },
            k <= rows@.len(),
            Some(texts(out@)) == spec_index_cells(kind, rows@.take(k as int)),
        decreases rows.len() - k,
    {
        let i = rows[k];
        let cell = match &index.kind {
            IndexKind::Range(_) => u64_text(i as u64),
            IndexKind::Int64(v) => i64_text(v[i]),
            IndexKind::Str(v) => {
                assert(texts(v@)[i as int] == v@[i as int]@);
                v[i].clone()
            },
            IndexKind::Datetime(v, tz) => fmt_date(v[i], *tz),
        };
        let ghost before = out@;
        out.push(cell);
        assert(rows@.take(k + 1) =~= rows@.take(k as int).push(i));
        assert(texts(out@) =~= texts(before).push(cell@));
        k = k + 1;
        proof {
            match kind {
                IndexKindView::Datetime(v, tz) => {
                    assert(all_midnight(v, tz, rows@.take(k as int)));
                },
                _ => {},
            }
            assert(Some(texts(out@)) =~~= spec_index_cells(kind, rows@.take(k as int)));
        }
    }
    assert(rows@.take(k as int) =~= rows@);
    Some(out)
}

/// The cell texts of a column at `rows`: integer, bool and text cells as
/// [`plain_cells`] writes them; datetime cells as dates when every shown
/// instant is a UTC midnight. `None` for a datetime column with a time of day
/// among the shown rows.
pub open spec fn spec_data_cells(col: ColumnView, rows: Seq<usize>) -> Option<Seq<Seq<char>>> {
    match col {
        ColumnView::Datetime(v) => if all_midnight(v, Tz::Utc, rows) {
            Some(rows.map_values(|i: usize| spec_fmt_date(v[i as int] as int, Tz::Utc)))
        } else {
            None
        },
        _ => spec_plain_cells(col, rows),
    }
}

/// Format a column's cells at `rows` (see [`spec_data_cells`]).
pub fn data_cells(col: &Column, rows: &Vec<usize>) -> (r: Option<Vec<String>>)
    requires
        forall|k: int| 0 <= k < rows@.len() ==> rows@[k] < col@.len(),
    ensures
        match r {
            Some(v) => spec_data_cells(col@, rows@) == Some(texts(v@)),
            None => spec_data_cells(col@, rows@) is None,
        },
{
    match col {
        Column::Datetime(v) => {
            let ix = Index::datetime(clone_i64s(v), Tz::Utc);
            index_cells(&ix, rows)
        },
        _ => plain_cells(col, rows),
    }
}

fn clone_i64s(v: &Vec<i64>) -> (r: Vec<i64>)
    ensures
        r@ == v@,
{
    let mut r: Vec<i64> = Vec::new();
    let mut i: usize = 0;
    while i < v.len()
        invariant
            i <= v@.len(),
            r@ == v@.take(i as int),
        decreases v.len() - i,
    {
        r.push(v[i]);
        i = i + 1;
        assert(r@ =~= v@.take(i as int));
    }
    assert(v@.take(i as int) =~= v@);
    r
}

/// The shown value of the only row of a column (see [`spec_data_cells`]).
pub open spec fn row_value(c: ColumnView) -> Option<Seq<char>> {
    match spec_data_cells(c, seq![0usize]) {
        Some(v) => Some(v[0]),
        None => None,
    }
}

/// The dtype name shared by all columns, `None` when there are none or they
/// differ.
pub open spec fn uniform_dtype(cols: Seq<ColumnView>) -> Option<Seq<char>> {
    if cols.len() > 0 && forall|j: int| 0 <= j < cols.len() ==> #[trigger] cols[j].same_kind(cols[0]) {
        Some(cols[0].dtype_name())
    } else {
        None
    }
}

/// A one-row frame shown as a row: `column   value` lines, and with `footer`
/// a `Name: <row label>, dtype: <dtype>` line, the dtype being the columns'
/// common one or `object`. `None` when a value or the label is a datetime
/// that is not shown as a date.
pub open spec fn spec_render_row(f: FrameView, footer: bool) -> Option<Seq<char>> {
    if exists|j: int| 0 <= j < f.columns.len() && #[trigger] row_value(f.columns[j]) is None {
        None
    } else if footer && spec_index_label_csv(f.index.kind, 0) is None {
        None
    } else {
        let values = Seq::new(f.columns.len(), |j: int| row_value(f.columns[j]).unwrap());
        let body = spec_vertical_body(f.names, values);
        let dtype = match uniform_dtype(f.columns) {
            Some(d) => d,
            None => "object"@,
        };
        Some(if footer {
            body + "\nName: "@ + spec_index_label_csv(f.index.kind, 0).unwrap() + ", dtype: "@ + dtype
        } else {
            body
        })
    }
}

/// Render a one-row frame as a row (see [`spec_render_row`]).
pub fn render_row(f: &Frame, footer: bool) -> (r: Option<String>)
    requires
        f@.wf(),
        f@.height() == 1,
    ensures
        match r {
            Some(s) => spec_render_row(f@, footer) == Some(s@),
            None => spec_render_row(f@, footer) is None,
        },
{
    let cols = f.columns();
    let mut values: Vec<String> = Vec::new();
    let mut one: Vec<usize> = Vec::new();
    one.push(0);
    let mut j: usize = 0;
    while j < cols.len()
        invariant
            f@.wf(),
            f@.height() == 1,
            crate::frame::column_views(cols@) == f@.columns,
            one@ == seq![0usize],
            j <= cols@.len(),
            texts(values@) == Seq::new(j as nat, |q: int| row_value(f@.columns[q]).unwrap()),
            forall|q: int| 0 <= q < j ==> #[trigger] row_value(f@.columns[q]) is Some,
        decreases cols.len() - j,
    {
        assert(crate::frame::column_views(cols@)[j as int] == cols@[j as int]@);
        assert(f@.columns[j as int].len() == 1);
        match data_cells(&cols[j], &one) {
            Some(v) => {
                let ghost before = values@;
                assert(texts(v@).len() == v@.len());
                assert(texts(v@).len() == 1);
                assert(texts(v@)[0] == v@[0]@);
                values.push(v[0].clone());
                assert(texts(values@) =~= texts(before).push(row_value(f@.columns[j as int]).unwrap()));
                j = j + 1;
                assert(texts(values@) =~= Seq::new(j as nat, |q: int| row_value(f@.columns[q]).unwrap()));
            },
            None => {
                assert(row_value(f@.columns[j as int]) is None);
                return None;
            },
        }
    }
    let label = if footer {
        match index_label_csv(f.index(), 0) {
            Some(l) => l,
            None => {
                return None;
            },
        }
    } else {
        String::new()
    };
    let names = f.names();
    let body = vertical_body(names, &values);
    if !footer {
        return Some(body);
    }
    let mut uniform = cols.len() > 0;
    let mut k: usize = 0;
    while k < cols.len()
        invariant
            crate::frame::column_views(cols@) == f@.columns,
            k <= cols@.len(),
            uniform == (cols@.len() > 0 && forall|q: int| 0 <= q < k ==> #[trigger] f@.columns[q].same_kind(f@.columns[0])),
        decreases cols.len() - k,
    {
        assert(crate::frame::column_views(cols@)[k as int] == cols@[k as int]@);
        assert(crate::frame::column_views(cols@)[0] == cols@[0]@);
        if !cols[k].same_kind(&cols[0]) {
            uniform = false;
        }
        k = k + 1;
    }
    proof {
        reveal_strlit("\nName: ");
        reveal_strlit(", dtype: ");
        reveal_strlit("object");
    }
    let mut out = body;
    out.append("\nName: ");
    out.append(label.as_str());
    out.append(", dtype: ");
    if uniform {
        assert(crate::frame::column_views(cols@)[0] == cols@[0]@);
        out.append(cols[0].dtype_name());
    } else {
        out.append("object");
    }
    Some(out)
}

/// How many head and tail rows the default text form of a frame shows: five
/// each past sixty rows, else all rows (`None`).
pub fn repr_truncate(height: usize) -> (r: Option<usize>)
    ensures
        r == (if height > 60 { Some(5usize) } else { None }),
{
    if height > 60 { Some(5) } else { None }
}

/// How many head and tail rows a text rendering with `max_rows` / `min_rows`
/// shows: past `max_rows` rows, half of `min_rows` (or of `max_rows`), at
/// least one; otherwise all rows (`None`).
pub fn display_truncate(height: usize, max_rows: Option<usize>, min_rows: Option<usize>) -> (r: Option<usize>)
    ensures
        r == match max_rows {
            Some(m) => if height > m {
                let k = match min_rows {
                    Some(x) => x,
                    None => m,
                } / 2;
                Some(if k > 1 { k } else { 1usize })
            } else {
                None
            },
            None => None,
        },
{
    match max_rows {
        Some(m) => if height > m {
            let base = match min_rows {
                Some(x) => x,
                None => m,
            };
            let k = base / 2;
            Some(if k > 1 { k } else { 1 })
        } else {
            None
        },
        None => None,
    }
}

/// The positions of the columns to show: those named in `columns`, in that
/// order, or all of them; a name that is not a column is a `Key` error.
pub fn column_positions(names: &Vec<String>, columns: &Option<Vec<String>>) -> (r: Result<Vec<usize>, VolasError>)
    ensures
        match columns {
            Some(cs) => match r {
                Ok(v) => v@.len() == cs@.len() && forall|k: int|
                    0 <= k < v@.len() ==> is_first_pos(texts(names@), #[trigger] cs@[k]@, v@[k] as int),
                Err(e) => (exists|k: int| 0 <= k < cs@.len() && !texts(names@).contains(#[trigger] cs@[k]@))
                    && e is Key,
            },
            None => match r {
                Ok(v) => ints(v@) == pos_range(0, names@.len() - 1),
                Err(_) => false,
            },
        },
{
    match columns {
        Some(cs) => {
            let mut out: Vec<usize> = Vec::new();
            let mut k: usize = 0;
            while k < cs.len()
                invariant
                    match *columns {
                        Some(x) => x@ == cs@,
                        None => false,
                    },
                    k <= cs@.len(),
                    out@.len() == k,
                    forall|j: int| 0 <= j < k ==> is_first_pos(texts(names@), #[trigger] cs@[j]@, out@[j] as int),
                decreases cs.len() - k,
            {
                match column_pos(names, cs[k].as_str()) {
                    Ok(p) => {
                        out.push(p);
                        k = k + 1;
                    },
                    Err(e) => {
                        assert(!texts(names@).contains(cs@[k as int]@));
                        assert(exists|q: int| 0 <= q < cs@.len() && !texts(names@).contains(#[trigger] cs@[q]@));
                        return Err(e);
                    },
                }
            }
            Ok(out)
        },
        None => {
            let mut out: Vec<usize> = Vec::new();
            let mut j: usize = 0;
            while j < names.len()
                invariant
                    j <= names@.len(),
                    ints(out@) == pos_range(0, j as int - 1),
                decreases names.len() - j,
            {
                let ghost before = out@;
                out.push(j);
                assert(ints(out@) =~= ints(before).push(j as int));
                j = j + 1;
                assert(ints(out@) =~= pos_range(0, j as int - 1));
            }
            Ok(out)
        },
    }
}

} // verus!
