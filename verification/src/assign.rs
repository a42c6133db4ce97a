//! Assigning one value to the cells a boolean mask selects.

use vstd::prelude::*;
use crate::error::VolasError;
use crate::frame::{column_views, texts, Column, ColumnView, Frame, FrameView};
use crate::reshape::{copy_column, copy_index};
use crate::select::{as_bool_mask, ints, lemma_true_positions, true_positions};

verus! {

/// A single typed value to assign.
#[derive(Debug, Clone)]
pub enum Scalar {
    I64(i64),
    Datetime(i64),
    Bool(bool),
    Str(String),
}

pub enum ScalarView {
    I64(i64),
    Datetime(i64),
    Bool(bool),
    Str(Seq<char>),
}

impl View for Scalar {
    type V = ScalarView;

    open spec fn view(&self) -> ScalarView {
        match self {
            Scalar::I64(x) => ScalarView::I64(*x),
            Scalar::Datetime(x) => ScalarView::Datetime(*x),
            Scalar::Bool(x) => ScalarView::Bool(*x),
            Scalar::Str(x) => ScalarView::Str(x@),
        }
    }
}

/// Whether a value has the dtype of a column.
pub open spec fn fits(c: ColumnView, v: ScalarView) -> bool {
    match (c, v) {
        (ColumnView::I64(_), ScalarView::I64(_)) => true,
        (ColumnView::Datetime(_), ScalarView::Datetime(_)) => true,
        (ColumnView::Bool(_), ScalarView::Bool(_)) => true,
        (ColumnView::Str(_), ScalarView::Str(_)) => true,
        _ => false,
    }
}

/// `s` with the entries at `pos` replaced by `x`.
pub open spec fn put<A>(s: Seq<A>, pos: Seq<int>, x: A) -> Seq<A> {
    Seq::new(s.len(), |i: int| if pos.contains(i) { x } else { s[i] })
}

/// A column with the cells at `pos` set to `v` (which fits it); unchanged
/// when `pos` is empty.
pub open spec fn scatter_col(c: ColumnView, pos: Seq<int>, v: ScalarView) -> ColumnView {
    match (c, v) {
        (ColumnView::I64(s), ScalarView::I64(x)) => ColumnView::I64(put(s, pos, x)),
        (ColumnView::Datetime(s), ScalarView::Datetime(x)) => ColumnView::Datetime(put(s, pos, x)),
        (ColumnView::Bool(s), ScalarView::Bool(x)) => ColumnView::Bool(put(s, pos, x)),
        (ColumnView::Str(s), ScalarView::Str(x)) => ColumnView::Str(put(s, pos, x)),
        _ => c,
    }
}

fn put_vec<T: Copy>(v: &Vec<T>, pos: &Vec<usize>, x: T) -> (r: Vec<T>)
    requires
        forall|k: int| 0 <= k < pos@.len() ==> pos@[k] < v@.len(),
    ensures
        r@ == put(v@, ints(pos@), x),
{
    let mut out: Vec<T> = Vec::new();
    let mut i: usize = 0;
    while i < v.len()
        invariant
            i <= v@.len(),
            out@ == v@.take(i as int),
        decreases v.len() - i,
    {
        out.push(v[i]);
        i = i + 1;
        assert(out@ =~= v@.take(i as int));
    }
    assert(v@.take(i as int) =~= v@);
    let mut k: usize = 0;
    while k < pos.len()
        invariant
            forall|q: int| 0 <= q < pos@.len() ==> pos@[q] < v@.len(),
            k <= pos@.len(),
            out@ == put(v@, ints(pos@.take(k as int)), x),
        decreases pos.len() - k,
    {
        let p = pos[k];
        out.set(p, x);
        proof {
            let a = ints(pos@.take(k as int));
            let b = ints(pos@.take(k + 1));
            assert(b =~= a.push(p as int));
            assert forall|i: int| 0 <= i < v@.len() implies #[trigger] b.contains(i) == (a.contains(i) || i == p) by {
                if b.contains(i) && !a.contains(i) {
                    let q = choose|q: int| 0 <= q < b.len() && b[q] == i;
                    if q < a.len() {
                        assert(a[q] == i);
                    }
                }
                if a.contains(i) {
                    let q = choose|q: int| 0 <= q < a.len() && a[q] == i;
                    assert(b[q] == i);
                }
                if i == p {
                    assert(b[k as int] == i);
                }
            }
        }
        k = k + 1;
        assert(out@ =~= put(v@, ints(pos@.take(k as int)), x));
    }
    assert(pos@.take(k as int) =~= pos@);
    out
}

fn put_texts(v: &Vec<String>, pos: &Vec<usize>, x: &String) -> (r: Vec<String>)
    requires
        forall|k: int| 0 <= k < pos@.len() ==> pos@[k] < v@.len(),
    ensures
        texts(r@) == put(texts(v@), ints(pos@), x@),
{
    let mut out: Vec<String> = crate::frame::clone_texts(v);
    assert(texts(out@) =~= put(texts(v@), ints(pos@.take(0)), x@));
    let mut k: usize = 0;
    while k < pos.len()
        invariant
            forall|q: int| 0 <= q < pos@.len() ==> pos@[q] < v@.len(),
            k <= pos@.len(),
            out@.len() == v@.len(),
            texts(out@) == put(texts(v@), ints(pos@.take(k as int)), x@),
        decreases pos.len() - k,
    {
        let p = pos[k];
        let ghost before = out@;
        out.set(p, x.clone());
        assert(texts(out@) =~= texts(before).update(p as int, x@));
        proof {
            let a = ints(pos@.take(k as int));
            let b = ints(pos@.take(k + 1));
            assert(b =~= a.push(p as int));
            assert forall|i: int| 0 <= i < v@.len() implies #[trigger] b.contains(i) == (a.contains(i) || i == p) by {
                if b.contains(i) && !a.contains(i) {
                    let q = choose|q: int| 0 <= q < b.len() && b[q] == i;
                    if q < a.len() {
                        assert(a[q] == i);
                    }
                }
                if a.contains(i) {
                    let q = choose|q: int| 0 <= q < a.len() && a[q] == i;
                    assert(b[q] == i);
                }
                if i == p {
                    assert(b[k as int] == i);
                }
            }
        }
        k = k + 1;
        assert(texts(out@) =~= put(texts(v@), ints(pos@.take(k as int)), x@));
    }
    assert(pos@.take(k as int) =~= pos@);
    out
}

/// Set the cells of `col` at `pos` to `v`. No positions leave the column as
/// it is, whatever `v`; otherwise a value of another dtype is a `Type` error.
pub fn scatter_scalar(col: &Column, pos: &Vec<usize>, v: &Scalar) -> (r: Result<Column, VolasError>)
    requires
        forall|k: int| 0 <= k < pos@.len() ==> pos@[k] < col@.len(),
    ensures
        match r {
            Ok(c) => (pos@.len() == 0 && c@ == col@) || (pos@.len() > 0 && fits(col@, v@) && c@ == scatter_col(
                col@,
                ints(pos@),
                v@,
            )),
            Err(e) => pos@.len() > 0 && !fits(col@, v@) && e is Type,
        },
{
    if pos.len() == 0 {
        return Ok(copy_column(col));
    }
    match (col, v) {
        (Column::I64(s), Scalar::I64(x)) => Ok(Column::I64(put_vec(s, pos, *x))),
        (Column::Datetime(s), Scalar::Datetime(x)) => Ok(Column::Datetime(put_vec(s, pos, *x))),
        (Column::Bool(s), Scalar::Bool(x)) => Ok(Column::Bool(put_vec(s, pos, *x))),
        (Column::Str(s), Scalar::Str(x)) => Ok(Column::Str(put_texts(s, pos, x))),
        _ => {
            let mut m = "cannot assign this value to a ".to_owned();
            m.append(col.dtype_name());
            m.append(" column");
            Err(VolasError::Type(m))
        },
    }
}

/// The frame with the cells at `pos_of(j)` of each column `j` set to `v`.
pub open spec fn assign_cells(f: FrameView, pos: Seq<Seq<int>>, v: ScalarView) -> FrameView {
    FrameView {
        names: f.names,
        columns: Seq::new(f.columns.len(), |j: int| if pos[j].len() == 0 { f.columns[j] } else { scatter_col(f.columns[j], pos[j], v) }),
        index: f.index,
    }
}

/// Whether `v` fits every column that has a cell to set.
pub open spec fn fits_targets(f: FrameView, pos: Seq<Seq<int>>, v: ScalarView) -> bool {
    forall|j: int| 0 <= j < f.columns.len() && #[trigger] pos[j].len() > 0 ==> fits(f.columns[j], v)
}

/// Scatter `v` into each column at its positions; all or nothing.
fn scatter_all(f: &Frame, pos: &Vec<Vec<usize>>, v: &Scalar) -> (r: Result<Frame, VolasError>)
    requires
        f@.wf(),
        pos@.len() == f@.columns.len(),
        forall|j: int, k: int| 0 <= j < pos@.len() && 0 <= k < pos@[j]@.len() ==> #[trigger] pos@[j]@[k] < f@.height(),
    ensures
        match r {
            Ok(g) => fits_targets(f@, pos@.map_values(|p: Vec<usize>| ints(p@)), v@) && g@ == assign_cells(
                f@,
                pos@.map_values(|p: Vec<usize>| ints(p@)),
                v@,
            ) && g@.wf(),
            Err(e) => !fits_targets(f@, pos@.map_values(|p: Vec<usize>| ints(p@)), v@) && e is Type,
        },
{
    let ghost pv = pos@.map_values(|p: Vec<usize>| ints(p@));
    let cols = f.columns();
    let mut out: Vec<Column> = Vec::new();
    let mut j: usize = 0;
    while j < cols.len()
        invariant
            f@.wf(),
            column_views(cols@) == f@.columns,
            pos@.len() == f@.columns.len(),
            pv == pos@.map_values(|p: Vec<usize>| ints(p@)),
            forall|a: int, k: int| 0 <= a < pos@.len() && 0 <= k < pos@[a]@.len() ==> #[trigger] pos@[a]@[k] < f@.height(),
            j <= cols@.len(),
            forall|q: int| 0 <= q < j && #[trigger] pv[q].len() > 0 ==> fits(f@.columns[q], v@),
            column_views(out@) == assign_cells(f@, pv, v@).columns.take(j as int),
        decreases cols.len() - j,
    {
        assert(column_views(cols@)[j as int] == cols@[j as int]@);
        assert(f@.columns[j as int].len() == f@.height());
        assert(pv[j as int] == ints(pos@[j as int]@));
        match scatter_scalar(&cols[j], &pos[j], v) {
            Ok(c) => {
                let ghost before = out@;
                out.push(c);
                assert(column_views(out@) =~= column_views(before).push(assign_cells(f@, pv, v@).columns[j as int]));
                j = j + 1;
                assert(column_views(out@) =~= assign_cells(f@, pv, v@).columns.take(j as int));
            },
            Err(e) => {
                assert(pv[j as int].len() > 0 && !fits(f@.columns[j as int], v@));
                return Err(e);
            },
        }
    }
    assert(assign_cells(f@, pv, v@).columns.take(j as int) =~= assign_cells(f@, pv, v@).columns);
    let names = crate::frame::clone_texts(f.names());
    let ix = copy_index(f.index());
    proof {
        assert forall|k: int| 0 <= k < out@.len() implies #[trigger] out@[k]@.len() == ix@.kind.len() by {
            assert(column_views(out@)[k] == out@[k]@);
            assert(f@.columns[k].len() == f@.height());
            match (f@.columns[k], v@) {
                (ColumnView::I64(s), ScalarView::I64(x)) => {},
                (ColumnView::Datetime(s), ScalarView::Datetime(x)) => {},
                (ColumnView::Bool(s), ScalarView::Bool(x)) => {},
                (ColumnView::Str(s), ScalarView::Str(x)) => {},
                _ => {},
            }
        }
    }
    match Frame::new(names, out, Some(ix)) {
        Ok(g) => Ok(g),
        Err(_) => {
            proof {
                assert(false);
            }
            Ok(f.duplicate())
        },
    }
}

/// `df[mask] = v` with a row mask: set `v` in every column at the rows the
/// mask selects. A mask of another length is a `Value` error; a value that
/// does not fit a column with a selected row is a `Type` error, and then no
/// cell is set.
pub fn assign_row_mask(f: &Frame, mask: &Vec<bool>, v: &Scalar) -> (r: Result<Frame, VolasError>)
    requires
        f@.wf(),
    ensures
        match r {
            Ok(g) => mask@.len() == f@.height() && fits_targets(
                f@,
                Seq::new(f@.columns.len(), |j: int| true_positions(mask@)),
                v@,
            ) && g@ == assign_cells(f@, Seq::new(f@.columns.len(), |j: int| true_positions(mask@)), v@),
            Err(e) => (mask@.len() != f@.height() && e is Value) || (mask@.len() == f@.height()
                && !fits_targets(f@, Seq::new(f@.columns.len(), |j: int| true_positions(mask@)), v@) && e is Type),
        },
{
    let n = f.height();
    let pos = match as_bool_mask(mask, n) {
        Some(p) => p,
        None => {
            return Err(VolasError::Value("boolean mask length differs from the frame height".to_owned()));
        },
    };
    proof {
        lemma_true_positions(mask@);
    }
    let mut all: Vec<Vec<usize>> = Vec::new();
    let mut j: usize = 0;
    let w = f.width();
    while j < w
        invariant
            w == f@.columns.len(),
            ints(pos@) == true_positions(mask@),
            j <= w,
            all@.len() == j,
            forall|q: int| 0 <= q < j ==> #[trigger] all@[q]@ == pos@,
        decreases w - j,
    {
        all.push(pos.clone());
        j = j + 1;
    }
    proof {
        assert(all@.map_values(|p: Vec<usize>| ints(p@)) =~= Seq::new(f@.columns.len(), |j: int| true_positions(mask@)));
        assert forall|a: int, k: int| 0 <= a < all@.len() && 0 <= k < all@[a]@.len() implies #[trigger] all@[a]@[k] < f@.height() by {
            assert(ints(pos@)[k] == true_positions(mask@)[k]);
        }
    }
    scatter_all(f, &all, v)
}

/// `df[cond] = v` with a boolean frame of the same shape: set `v` in each
/// column at the rows its condition column selects. Another shape is a
/// `Value` error, a condition column that is not boolean a `Type` error, and
/// a value that does not fit a column with a selected cell a `Type` error;
/// on any error no cell is set.
pub fn assign_cell_mask(f: &Frame, cond: &Frame, v: &Scalar) -> (r: Result<Frame, VolasError>)
    requires
        f@.wf(),
        cond@.wf(),
    ensures
        match r {
            Ok(g) => {
                &&& f@.columns.len() == cond@.columns.len() && f@.height() == cond@.height()
                &&& crate::mask::all_bool(cond@.columns)
                &&& fits_targets(f@, Seq::new(f@.columns.len(), |j: int| true_positions(cond@.columns[j]->Bool_0)), v@)
                &&& g@ == assign_cells(f@, Seq::new(f@.columns.len(), |j: int| true_positions(cond@.columns[j]->Bool_0)), v@)
            },
            Err(e) => {
                ||| (f@.columns.len() != cond@.columns.len() || f@.height() != cond@.height()) && e is Value
                ||| f@.columns.len() == cond@.columns.len() && f@.height() == cond@.height()
                    && !crate::mask::all_bool(cond@.columns) && e is Type
                ||| f@.columns.len() == cond@.columns.len() && f@.height() == cond@.height()
                    && crate::mask::all_bool(cond@.columns)
                    && !fits_targets(f@, Seq::new(f@.columns.len(), |j: int| true_positions(cond@.columns[j]->Bool_0)), v@)
                    && e is Type
            },
        },
{
    if cond.width() != f.width() || cond.height() != f.height() {
        return Err(VolasError::Value("df[mask] = v: `mask` must have the same shape as the frame".to_owned()));
    }
    let n = f.height();
    let cc = cond.columns();
    let ghost want = Seq::new(f@.columns.len(), |j: int| true_positions(cond@.columns[j]->Bool_0));
    let mut all: Vec<Vec<usize>> = Vec::new();
    let mut j: usize = 0;
    while j < cc.len()
        invariant
            cond@.wf(),
            column_views(cc@) == cond@.columns,
            f@.columns.len() == cond@.columns.len(),
            f@.height() == cond@.height(),
            n == f@.height(),
            want == Seq::new(f@.columns.len(), |j: int| true_positions(cond@.columns[j]->Bool_0)),
            j <= cc@.len(),
            all@.len() == j,
            forall|q: int| 0 <= q < j ==> #[trigger] cond@.columns[q] is Bool,
            forall|q: int| 0 <= q < j ==> ints(#[trigger] all@[q]@) == want[q],
            forall|a: int, k: int| 0 <= a < j && 0 <= k < all@[a]@.len() ==> #[trigger] all@[a]@[k] < n,
        decreases cc.len() - j,
    {
        assert(column_views(cc@)[j as int] == cc@[j as int]@);
        match &cc[j] {
            Column::Bool(bits) => {
                assert(cond@.columns[j as int].len() == cond@.height());
                let p = match as_bool_mask(bits, n) {
                    Some(p) => p,
                    None => Vec::new(),
                };
                proof {
                    lemma_true_positions(bits@);
                    assert forall|k: int| 0 <= k < p@.len() implies p@[k] < n by {
                        assert(ints(p@)[k] == true_positions(bits@)[k]);
                    }
                }
                all.push(p);
                j = j + 1;
            },
            other => {
                assert(!(cond@.columns[j as int] is Bool));
                let mut m = "df[mask] = v: `mask` must be a boolean frame, got a ".to_owned();
                m.append(other.dtype_name());
                m.append(" column");
                return Err(VolasError::Type(m));
            },
        }
    }
    proof {
        assert(all@.map_values(|p: Vec<usize>| ints(p@)) =~= want);
    }
    scatter_all(f, &all, v)
}

} // verus!
