//! Repeated values of a column: the duplicate mask and the mode.

use vstd::prelude::*;
use crate::error::VolasError;
use crate::frame::{column_views, texts, Column, ColumnView, Frame, FrameView};
use crate::select::{as_bool_mask, ints, true_positions};
use crate::text::same_text;

verus! {

/// Whether rows `i` and `j` of a column hold the same value.
pub open spec fn same_cell(c: ColumnView, i: int, j: int) -> bool {
    match c {
        ColumnView::I64(v) => v[i] == v[j],
        ColumnView::Datetime(v) => v[i] == v[j],
        ColumnView::Bool(v) => v[i] == v[j],
        ColumnView::Str(v) => v[i] == v[j],
    }
}

/// The duplicate mask keeping the first occurrence: row `i` is marked when an
/// earlier row holds its value.
pub open spec fn dup_keep_first(c: ColumnView) -> Seq<bool> {
    Seq::new(c.len(), |i: int| exists|j: int| 0 <= j < i && #[trigger] same_cell(c, i, j))
}

/// The duplicate mask keeping the last occurrence: row `i` is marked when a
/// later row holds its value.
pub open spec fn dup_keep_last(c: ColumnView) -> Seq<bool> {
    Seq::new(c.len(), |i: int| exists|j: int| i < j < c.len() && #[trigger] same_cell(c, i, j))
}

/// Whether rows `i` and `j` of a column hold the same value.
pub fn cells_equal(col: &Column, i: usize, j: usize) -> (r: bool)
    requires
        i < col@.len(),
        j < col@.len(),
    ensures
        r == same_cell(col@, i as int, j as int),
{
    match col {
        Column::I64(v) => v[i] == v[j],
        Column::Datetime(v) => v[i] == v[j],
        Column::Bool(v) => v[i] == v[j],
        Column::Str(v) => {
            assert(texts(v@)[i as int] == v@[i as int]@);
            assert(texts(v@)[j as int] == v@[j as int]@);
            same_text(v[i].as_str(), v[j].as_str())
        },
    }
}

fn col_len(col: &Column) -> (n: usize)
    ensures
        n == col@.len(),
{
    col.len()
}

/// The duplicate mask of a column: with `keep` `"first"` a row is marked when
/// an earlier row holds its value, with `"last"` when a later one does; any
/// other `keep` is a `Value` error.
pub fn duplicated_mask_keep(col: &Column, keep: &str) -> (r: Result<Vec<bool>, VolasError>)
    ensures
        match r {
            Ok(m) => (keep@ == "first"@ && m@ == dup_keep_first(col@)) || (keep@ == "last"@ && m@ == dup_keep_last(
                col@,
            )),
            Err(e) => keep@ != "first"@ && keep@ != "last"@ && e is Value,
        },
{
    let n = col_len(col);
    let first = same_text(keep, "first");
    if !first && !same_text(keep, "last") {
        let mut m = "keep must be 'first' or 'last', got \"".to_owned();
        m.append(keep);
        m.append("\"");
        return Err(VolasError::Value(m));
    }
    let ghost want = if first { dup_keep_first(col@) } else { dup_keep_last(col@) };
    let mut out: Vec<bool> = Vec::new();
    let mut i: usize = 0;
    while i < n
        invariant
            n == col@.len(),
            want == if first { dup_keep_first(col@) } else { dup_keep_last(col@) },
            i <= n,
            out@ == want.take(i as int),
        decreases n - i,
    {
        let mut hit = false;
        if first {
            let mut j: usize = 0;
            while j < i
                invariant
                    n == col@.len(),
                    i < n,
                    j <= i,
                    hit == exists|q: int| 0 <= q < j && #[trigger] same_cell(col@, i as int, q),
                decreases i - j,
            {
                if cells_equal(col, i, j) {
                    hit = true;
                }
                j = j + 1;
            }
        } else {
            let mut j: usize = i + 1;
            while j < n
                invariant
                    n == col@.len(),
                    i < n,
                    i + 1 <= j <= n,
                    hit == exists|q: int| i < q < j && #[trigger] same_cell(col@, i as int, q),
                decreases n - j,
            {
                if cells_equal(col, i, j) {
                    hit = true;
                }
                j = j + 1;
            }
        }
        out.push(hit);
        i = i + 1;
        assert(out@ =~= want.take(i as int));
    }
    assert(out@ =~= want);
    Ok(out)
}

/// How many of the rows `0..k` hold the value of row `i`.
pub open spec fn count_same(c: ColumnView, i: int, k: int) -> nat
    decreases k,
{
    if k <= 0 {
        0
    } else {
        count_same(c, i, k - 1) + if same_cell(c, i, k - 1) { 1nat } else { 0nat }
    }
}

/// The largest count among the rows `0..k`.
pub open spec fn top_count(c: ColumnView, k: int) -> nat
    decreases k,
{
    if k <= 0 {
        0
    } else {
        let t = top_count(c, k - 1);
        let m = count_same(c, k - 1, c.len() as int);
        if m > t { m } else { t }
    }
}

/// The rows that start the most frequent values: each the first row holding
/// a value that occurs as often as any other, in row order.
pub open spec fn mode_positions(c: ColumnView) -> Seq<int> {
    true_positions(
        Seq::new(
            c.len(),
            |i: int|
                (forall|j: int| 0 <= j < i ==> !#[trigger] same_cell(c, i, j)) && count_same(c, i, c.len() as int)
                    == top_count(c, c.len() as int),
        ),
    )
}

fn count_of_row(col: &Column, i: usize) -> (r: usize)
    requires
        i < col@.len(),
    ensures
        r == count_same(col@, i as int, col@.len() as int),
{
    let n = col_len(col);
    let mut c: usize = 0;
    let mut k: usize = 0;
    while k < n
        invariant
            n == col@.len(),
            i < n,
            k <= n,
            c <= k,
            c == count_same(col@, i as int, k as int),
        decreases n - k,
    {
        if cells_equal(col, i, k) {
            c = c + 1;
        }
        k = k + 1;
    }
    c
}

fn is_first_occurrence(col: &Column, i: usize) -> (r: bool)
    requires
        i < col@.len(),
    ensures
        r == forall|j: int| 0 <= j < i ==> !#[trigger] same_cell(col@, i as int, j),
{
    let mut j: usize = 0;
    while j < i
        invariant
            i < col@.len(),
            j <= i,
            forall|q: int| 0 <= q < j ==> !#[trigger] same_cell(col@, i as int, q),
        decreases i - j,
    {
        if cells_equal(col, i, j) {
            return false;
        }
        j = j + 1;
    }
    true
}

/// The rows of a column's most frequent values (see [`mode_positions`]).
pub fn mode_rows(col: &Column) -> (r: Vec<usize>)
    ensures
        ints(r@) == mode_positions(col@),
{
    let n = col_len(col);
    let mut counts: Vec<usize> = Vec::new();
    let mut top: usize = 0;
    let mut i: usize = 0;
    while i < n
        invariant
            n == col@.len(),
            i <= n,
            counts@.len() == i,
            forall|q: int| 0 <= q < i ==> #[trigger] counts@[q] == count_same(col@, q, n as int),
            top == top_count(col@, i as int),
        decreases n - i,
    {
        let c = count_of_row(col, i);
        counts.push(c);
        if c > top {
            top = c;
        }
        i = i + 1;
    }
    let ghost want = Seq::new(
        n as nat,
        |i: int|
            (forall|j: int| 0 <= j < i ==> !#[trigger] same_cell(col@, i, j)) && count_same(col@, i, n as int)
                == top_count(col@, n as int),
    );
    let mut bits: Vec<bool> = Vec::new();
    let mut k: usize = 0;
    while k < n
        invariant
            n == col@.len(),
            counts@.len() == n,
            forall|q: int| 0 <= q < n ==> #[trigger] counts@[q] == count_same(col@, q, n as int),
            top == top_count(col@, n as int),
            want == Seq::new(
                n as nat,
                |i: int|
                    (forall|j: int| 0 <= j < i ==> !#[trigger] same_cell(col@, i, j)) && count_same(col@, i, n as int)
                        == top_count(col@, n as int),
            ),
            k <= n,
            bits@ == want.take(k as int),
        decreases n - k,
    {
        let f = is_first_occurrence(col, k);
        bits.push(f && counts[k] == top);
        k = k + 1;
        assert(bits@ =~= want.take(k as int));
    }
    assert(bits@ =~= want);
    match as_bool_mask(&bits, n) {
        Some(p) => p,
        None => Vec::new(),
    }
}

/// The most frequent values of a column, each once, in the order they first
/// occur (see [`mode_positions`]).
pub fn mode(col: &Column) -> (r: Column)
    ensures
        r@ == col@.take(mode_positions(col@).map_values(|p: int| p as usize)),
{
    let rows = mode_rows(col);
    proof {
        let bits = Seq::new(
            col@.len(),
            |i: int|
                (forall|j: int| 0 <= j < i ==> !#[trigger] same_cell(col@, i, j)) && count_same(col@, i, col@.len() as int)
                    == top_count(col@, col@.len() as int),
        );
        crate::select::lemma_true_positions(bits);
        assert forall|k: int| 0 <= k < rows@.len() implies rows@[k] < col@.len() by {
            assert(ints(rows@)[k] == mode_positions(col@)[k]);
        }
        assert(rows@ =~= mode_positions(col@).map_values(|p: int| p as usize)) by {
            assert forall|k: int| 0 <= k < rows@.len() implies rows@[k] == mode_positions(col@)[k] as usize by {
                assert(ints(rows@)[k] == mode_positions(col@)[k]);
            }
        }
    }
    col.take(&rows)
}

/// The rows the mode picks are the ones the first-keeping duplicate mask
/// leaves unmarked, and no two of them hold the same value.
pub proof fn law_mode_rows_unduplicated(c: ColumnView)
    ensures
        forall|k: int| 0 <= k < mode_positions(c).len() ==> !dup_keep_first(c)[#[trigger] mode_positions(c)[k]],
        forall|a: int, b: int|
            0 <= a < b < mode_positions(c).len() ==> !same_cell(c, #[trigger] mode_positions(c)[a], #[trigger] mode_positions(c)[b]),
{
    let bits = Seq::new(
        c.len(),
        |i: int|
            (forall|j: int| 0 <= j < i ==> !#[trigger] same_cell(c, i, j)) && count_same(c, i, c.len() as int)
                == top_count(c, c.len() as int),
    );
    crate::select::lemma_true_positions(bits);
    crate::select::lemma_true_positions_increasing(bits);
    let mp = mode_positions(c);
    assert forall|k: int| 0 <= k < mp.len() implies !dup_keep_first(c)[#[trigger] mp[k]] by {
        assert(bits[mp[k]]);
    }
    assert forall|a: int, b: int| 0 <= a < b < mp.len() implies !same_cell(c, #[trigger] mp[a], #[trigger] mp[b]) by {
        assert(mp[a] < mp[b]);
        assert(bits[mp[b]]);
        assert(!same_cell(c, mp[b], mp[a]));
        match c {
            ColumnView::I64(v) => {},
            ColumnView::Datetime(v) => {},
            ColumnView::Bool(v) => {},
            ColumnView::Str(v) => {},
        }
    }
}

/// Whether rows `i` and `j` of a frame hold the same values in every column.
pub open spec fn same_row(f: FrameView, i: int, j: int) -> bool {
    forall|c: int| 0 <= c < f.columns.len() ==> #[trigger] same_cell(f.columns[c], i, j)
}

/// The duplicate row mask keeping the first occurrence.
pub open spec fn row_dup_keep_first(f: FrameView) -> Seq<bool> {
    Seq::new(f.height(), |i: int| exists|j: int| 0 <= j < i && #[trigger] same_row(f, i, j))
}

/// The duplicate row mask keeping the last occurrence.
pub open spec fn row_dup_keep_last(f: FrameView) -> Seq<bool> {
    Seq::new(f.height(), |i: int| exists|j: int| i < j < f.height() && #[trigger] same_row(f, i, j))
}

fn rows_equal(f: &Frame, i: usize, j: usize) -> (r: bool)
    requires
        f@.wf(),
        i < f@.height(),
        j < f@.height(),
    ensures
        r == same_row(f@, i as int, j as int),
{
    let cols = f.columns();
    let mut c: usize = 0;
    while c < cols.len()
        invariant
            f@.wf(),
            column_views(cols@) == f@.columns,
            i < f@.height(),
            j < f@.height(),
            c <= cols@.len(),
            forall|q: int| 0 <= q < c ==> #[trigger] same_cell(f@.columns[q], i as int, j as int),
        decreases cols.len() - c,
    {
        assert(column_views(cols@)[c as int] == cols@[c as int]@);
        assert(f@.columns[c as int].len() == f@.height());
        if !cells_equal(&cols[c], i, j) {
            return false;
        }
        c = c + 1;
    }
    true
}

/// The duplicate row mask of a frame: with `keep` `"first"` a row is marked
/// when an earlier row holds the same values, with `"last"` when a later one
/// does; any other `keep` is a `Value` error.
pub fn row_duplicated(f: &Frame, keep: &str) -> (r: Result<Vec<bool>, VolasError>)
    requires
        f@.wf(),
    ensures
        match r {
            Ok(m) => (keep@ == "first"@ && m@ == row_dup_keep_first(f@)) || (keep@ == "last"@ && m@
                == row_dup_keep_last(f@)),
            Err(e) => keep@ != "first"@ && keep@ != "last"@ && e is Value,
        },
{
    let n = f.height();
    let first = same_text(keep, "first");
    if !first && !same_text(keep, "last") {
        let mut m = "keep must be 'first' or 'last', got \"".to_owned();
        m.append(keep);
        m.append("\"");
        return Err(VolasError::Value(m));
    }
    let ghost want = if first { row_dup_keep_first(f@) } else { row_dup_keep_last(f@) };
    let mut out: Vec<bool> = Vec::new();
    let mut i: usize = 0;
    while i < n
        invariant
            f@.wf(),
            n == f@.height(),
            want == if first { row_dup_keep_first(f@) } else { row_dup_keep_last(f@) },
            i <= n,
            out@ == want.take(i as int),
        decreases n - i,
    {
        let mut hit = false;
        if first {
            let mut j: usize = 0;
            while j < i
                invariant
                    f@.wf(),
                    n == f@.height(),
                    i < n,
                    j <= i,
                    hit == exists|q: int| 0 <= q < j && #[trigger] same_row(f@, i as int, q),
                decreases i - j,
            {
                if rows_equal(f, i, j) {
                    hit = true;
                }
                j = j + 1;
            }
        } else {
            let mut j: usize = i + 1;
            while j < n
                invariant
                    f@.wf(),
                    n == f@.height(),
                    i < n,
                    i + 1 <= j <= n,
                    hit == exists|q: int| i < q < j && #[trigger] same_row(f@, i as int, q),
                decreases n - j,
            {
                if rows_equal(f, i, j) {
                    hit = true;
                }
                j = j + 1;
            }
        }
        out.push(hit);
        i = i + 1;
        assert(out@ =~= want.take(i as int));
    }
    assert(out@ =~= want);
    Ok(out)
}

/// The number of distinct values of each column.
pub open spec fn distinct_count(c: ColumnView) -> nat {
    true_positions(Seq::new(c.len(), |i: int| forall|j: int| 0 <= j < i ==> !#[trigger] same_cell(c, i, j))).len()
}

/// The number of distinct values of each column of a frame.
pub fn nunique(f: &Frame) -> (r: Vec<usize>)
    requires
        f@.wf(),
    ensures
        r@.len() == f@.columns.len(),
        forall|k: int| 0 <= k < r@.len() ==> #[trigger] r@[k] == distinct_count(f@.columns[k]),
{
    let cols = f.columns();
    let mut out: Vec<usize> = Vec::new();
    let mut k: usize = 0;
    while k < cols.len()
        invariant
            column_views(cols@) == f@.columns,
            k <= cols@.len(),
            out@.len() == k,
            forall|q: int| 0 <= q < k ==> #[trigger] out@[q] == distinct_count(f@.columns[q]),
        decreases cols.len() - k,
    {
        assert(column_views(cols@)[k as int] == cols@[k as int]@);
        let col = &cols[k];
        let n = col_len(col);
        let ghost bits = Seq::new(n as nat, |i: int| forall|j: int| 0 <= j < i ==> !#[trigger] same_cell(col@, i, j));
        let mut b: Vec<bool> = Vec::new();
        let mut i: usize = 0;
        while i < n
            invariant
                n == col@.len(),
                bits == Seq::new(n as nat, |i: int| forall|j: int| 0 <= j < i ==> !#[trigger] same_cell(col@, i, j)),
                i <= n,
                b@ == bits.take(i as int),
            decreases n - i,
        {
            b.push(is_first_occurrence(col, i));
            i = i + 1;
            assert(b@ =~= bits.take(i as int));
        }
        assert(b@ =~= bits);
        let pos = match as_bool_mask(&b, n) {
            Some(p) => p,
            None => Vec::new(),
        };
        assert(ints(pos@).len() == pos@.len());
        out.push(pos.len());
        k = k + 1;
    }
    out
}

impl Frame {
    /// The frame without its duplicate rows (see [`row_duplicated`]).
    #[verifier::spinoff_prover]
    pub fn drop_duplicates(&self, keep: &str) -> (r: Result<Frame, VolasError>)
        requires
            self@.wf(),
            self@.height() <= i64::MAX,
        ensures
            match r {
                Ok(g) => (keep@ == "first"@ || keep@ == "last"@) && g@ == crate::reshape::frame_take(
                    self@,
                    true_positions(
                        (if keep@ == "first"@ { row_dup_keep_first(self@) } else { row_dup_keep_last(self@) }).map_values(
                            |d: bool| !d,
                        ),
                    ).map_values(|p: int| p as usize),
                ),
                Err(e) => keep@ != "first"@ && keep@ != "last"@ && e is Value,
            },
    {
        proof {
            reveal_strlit("first");
            reveal_strlit("last");
        }
        let dup = row_duplicated(self, keep)?;
        assert("first"@[0] != "last"@[0]);
        assert(dup@ == (if keep@ == "first"@ { row_dup_keep_first(self@) } else { row_dup_keep_last(self@) }));
        let n = self.height();
        let ghost want = dup@.map_values(|d: bool| !d);
        let mut keepm: Vec<bool> = Vec::new();
        let mut i: usize = 0;
        while i < dup.len()
            invariant
                want == dup@.map_values(|d: bool| !d),
                i <= dup@.len(),
                keepm@ == want.take(i as int),
            decreases dup.len() - i,
        {
            keepm.push(!dup[i]);
            i = i + 1;
            assert(keepm@ =~= want.take(i as int));
        }
        assert(keepm@ =~= want);
        let pos = match as_bool_mask(&keepm, n) {
            Some(p) => p,
            None => Vec::new(),
        };
        proof {
            crate::select::lemma_true_positions(want);
            assert forall|k: int| 0 <= k < pos@.len() implies pos@[k] < self@.height() by {
                assert(ints(pos@)[k] == true_positions(want)[k]);
            }
            assert(pos@ =~= true_positions(want).map_values(|p: int| p as usize)) by {
                assert forall|k: int| 0 <= k < pos@.len() implies pos@[k] == true_positions(want)[k] as usize by {
                    assert(ints(pos@)[k] == true_positions(want)[k]);
                }
            }
        }
        Ok(self.take(&pos))
    }
}

/// Holding the same value is an equivalence on the rows of a column.
proof fn lemma_same_cell_trans(c: ColumnView, i: int, j: int, m: int)
    ensures
        same_cell(c, i, i),
        same_cell(c, i, j) ==> same_cell(c, j, i),
        same_cell(c, i, j) && same_cell(c, j, m) ==> same_cell(c, i, m),
{
}

/// Rows holding the same value are counted alike.
proof fn lemma_count_same_eq(c: ColumnView, i: int, j: int, k: int)
    requires
        same_cell(c, i, j),
    ensures
        count_same(c, i, k) == count_same(c, j, k),
    decreases k,
{
    if k > 0 {
        lemma_count_same_eq(c, i, j, k - 1);
        lemma_same_cell_trans(c, i, j, k - 1);
        lemma_same_cell_trans(c, j, i, k - 1);
    }
}

/// Some row among the first `k` reaches the top count of those rows.
proof fn lemma_top_reached(c: ColumnView, k: int)
    requires
        1 <= k,
    ensures
        exists|i: int| 0 <= i < k && #[trigger] count_same(c, i, c.len() as int) == top_count(c, k),
    decreases k,
{
    if k == 1 {
        assert(top_count(c, 0) == 0);
        assert(count_same(c, 0, c.len() as int) == top_count(c, 1));
    } else {
        lemma_top_reached(c, k - 1);
        let i = choose|i: int| 0 <= i < k - 1 && #[trigger] count_same(c, i, c.len() as int) == top_count(c, k - 1);
        if count_same(c, k - 1, c.len() as int) > top_count(c, k - 1) {
            assert(count_same(c, k - 1, c.len() as int) == top_count(c, k));
        } else {
            assert(count_same(c, i, c.len() as int) == top_count(c, k));
        }
    }
}

/// Every row's value first occurs at some row at or before it.
proof fn lemma_first_occurrence(c: ColumnView, i: int)
    requires
        0 <= i,
    ensures
        exists|j: int| 0 <= j <= i && #[trigger] same_cell(c, i, j) && forall|q: int| 0 <= q < j ==> !#[trigger] same_cell(c, j, q),
    decreases i,
{
    lemma_same_cell_trans(c, i, i, i);
    if forall|q: int| 0 <= q < i ==> !#[trigger] same_cell(c, i, q) {
        assert(same_cell(c, i, i));
    } else {
        let q = choose|q: int| 0 <= q < i && #[trigger] same_cell(c, i, q);
        lemma_first_occurrence(c, q);
        let j = choose|j: int| 0 <= j <= q && #[trigger] same_cell(c, q, j) && forall|r: int| 0 <= r < j ==> !#[trigger] same_cell(c, j, r);
        lemma_same_cell_trans(c, i, q, j);
        assert(same_cell(c, i, j));
    }
}

/// A column with rows has a mode.
pub proof fn lemma_mode_nonempty(c: ColumnView)
    requires
        c.len() > 0,
    ensures
        mode_positions(c).len() > 0,
{
    let n = c.len() as int;
    lemma_top_reached(c, n);
    let i = choose|i: int| 0 <= i < n && #[trigger] count_same(c, i, n) == top_count(c, n);
    lemma_first_occurrence(c, i);
    let j = choose|j: int| 0 <= j <= i && #[trigger] same_cell(c, i, j) && forall|q: int| 0 <= q < j ==> !#[trigger] same_cell(c, j, q);
    lemma_count_same_eq(c, i, j, n);
    let bits = Seq::new(
        c.len(),
        |i: int|
            (forall|j: int| 0 <= j < i ==> !#[trigger] same_cell(c, i, j)) && count_same(c, i, c.len() as int)
                == top_count(c, c.len() as int),
    );
    assert(bits[j]);
    crate::select::lemma_true_positions(bits);
    assert(true_positions(bits).contains(j));
}

/// The first mode of a column as a one-row column; empty for an empty column.
pub open spec fn first_mode(c: ColumnView) -> ColumnView {
    if mode_positions(c).len() > 0 {
        c.take(seq![mode_positions(c)[0] as usize])
    } else {
        c.take(Seq::empty())
    }
}

/// The first mode of every column, as a frame of one row (no row for a frame
/// without rows) over a range index.
pub fn frame_mode(f: &Frame) -> (r: Frame)
    requires
        f@.wf(),
    ensures
        r@.names == f@.names,
        r@.columns == f@.columns.map_values(|c: ColumnView| first_mode(c)),
        r@.wf(),
{
    let cols = f.columns();
    let mut out: Vec<Column> = Vec::new();
    let mut k: usize = 0;
    while k < cols.len()
        invariant
            f@.wf(),
            column_views(cols@) == f@.columns,
            k <= cols@.len(),
            column_views(out@) == f@.columns.take(k as int).map_values(|c: ColumnView| first_mode(c)),
            forall|q: int| 0 <= q < k ==> #[trigger] out@[q]@.len() == if f@.height() > 0 { 1nat } else { 0nat },
        decreases cols.len() - k,
    {
        assert(column_views(cols@)[k as int] == cols@[k as int]@);
        let col = &cols[k];
        assert(col@.len() == f@.height());
        let rows = mode_rows(col);
        let mut pick: Vec<usize> = Vec::new();
        if rows.len() > 0 {
            pick.push(rows[0]);
        }
        proof {
            crate::select::lemma_true_positions(Seq::new(
                col@.len(),
                |i: int|
                    (forall|j: int| 0 <= j < i ==> !#[trigger] same_cell(col@, i, j)) && count_same(col@, i, col@.len() as int)
                        == top_count(col@, col@.len() as int),
            ));
            if col@.len() > 0 {
                lemma_mode_nonempty(col@);
            }
            if rows@.len() > 0 {
                assert(ints(rows@)[0] == mode_positions(col@)[0]);
                assert(pick@ =~= seq![mode_positions(col@)[0] as usize]);
            } else {
                assert(pick@ =~= Seq::<usize>::empty());
            }
            assert(ints(rows@).len() == rows@.len());
        }
        let one = col.take(&pick);
        let ghost before = out@;
        out.push(one);
        assert(column_views(out@) =~= column_views(before).push(first_mode(f@.columns[k as int])));
        assert(f@.columns.take(k + 1) =~= f@.columns.take(k as int).push(f@.columns[k as int]));
        k = k + 1;
        assert(column_views(out@) =~= f@.columns.take(k as int).map_values(|c: ColumnView| first_mode(c)));
    }
    assert(f@.columns.take(k as int) =~= f@.columns);
    let names = crate::frame::clone_texts(f.names());
    let n: usize = if f.height() > 0 { 1 } else { 0 };
    let ix = crate::frame::Index { kind: crate::frame::IndexKind::Range(n), name: None };
    proof {
        assert forall|q: int| 0 <= q < out@.len() implies #[trigger] out@[q]@.len() == ix@.kind.len() by {}
    }
    match Frame::new(names, out, Some(ix)) {
        Ok(g) => g,
        Err(_) => {
            proof {
                assert(false);
            }
            f.duplicate()
        },
    }
}

/// The rows where each value first occurs, in row order.
pub open spec fn first_rows(c: ColumnView) -> Seq<int> {
    true_positions(Seq::new(c.len(), |i: int| forall|j: int| 0 <= j < i ==> !#[trigger] same_cell(c, i, j)))
}

/// How often the value of each row of `rows` occurs in the column.
pub open spec fn counts_of(c: ColumnView, rows: Seq<int>) -> Seq<int> {
    rows.map_values(|r: int| count_same(c, r, c.len() as int) as int)
}

/// The counts of the distinct values in order of first occurrence, as the
/// keys of an integer index (to be sorted by).
pub open spec fn count_keys(c: ColumnView) -> crate::frame::IndexKindView {
    crate::frame::IndexKindView::Int64(counts_of(c, first_rows(c)).map_values(|x: int| x as i64))
}

/// The distinct values of a column with how often each occurs, as the rows
/// where they first occur and their counts: in order of first occurrence, or
/// with `sort` stably ordered by count (most frequent first unless
/// `ascending`). Keeping missing values (`dropna` false) is a `Value` error.
pub fn value_counts(col: &Column, sort: bool, ascending: bool, dropna: bool) -> (r: Result<(Vec<usize>, Vec<usize>), VolasError>)
    requires
        col@.len() <= i64::MAX,
    ensures
        match r {
            Ok((rows, counts)) => dropna && counts@.len() == rows@.len() && ints(counts@) == counts_of(col@, ints(rows@))
                && if sort {
                exists|perm: Seq<usize>|
                    #[trigger] crate::sort::sorted_perm(count_keys(col@), ascending, perm) && ints(rows@) == perm.map_values(|p: usize| first_rows(col@)[p as int])
            } else {
                ints(rows@) == first_rows(col@)
            },
            Err(e) => !dropna && e is Value,
        },
{
    if !dropna {
        return Err(VolasError::Value(
            "value_counts(dropna=False) is unsupported: an index has no missing-label slot".to_owned(),
        ));
    }
    let n = col_len(col);
    let ghost bits = Seq::new(n as nat, |i: int| forall|j: int| 0 <= j < i ==> !#[trigger] same_cell(col@, i, j));
    let mut b: Vec<bool> = Vec::new();
    let mut i: usize = 0;
    while i < n
        invariant
            n == col@.len(),
            bits == Seq::new(n as nat, |i: int| forall|j: int| 0 <= j < i ==> !#[trigger] same_cell(col@, i, j)),
            i <= n,
            b@ == bits.take(i as int),
        decreases n - i,
    {
        b.push(is_first_occurrence(col, i));
        i = i + 1;
        assert(b@ =~= bits.take(i as int));
    }
    assert(b@ =~= bits);
    let firsts = match as_bool_mask(&b, n) {
        Some(p) => p,
        None => Vec::new(),
    };
    proof {
        crate::select::lemma_true_positions(bits);
        assert forall|k: int| 0 <= k < firsts@.len() implies firsts@[k] < n by {
            assert(ints(firsts@)[k] == first_rows(col@)[k]);
        }
    }
    let ghost fr = first_rows(col@);
    let mut cnt: Vec<i64> = Vec::new();
    let mut cnt_u: Vec<usize> = Vec::new();
    let mut k: usize = 0;
    while k < firsts.len()
        invariant
            n == col@.len(),
            n <= i64::MAX,
            fr == first_rows(col@),
            ints(firsts@) == fr,
            forall|q: int| 0 <= q < firsts@.len() ==> firsts@[q] < n,
            k <= firsts@.len(),
            cnt@.len() == k,
            cnt_u@.len() == k,
            forall|q: int| 0 <= q < k ==> #[trigger] cnt@[q] as int == counts_of(col@, fr)[q],
            forall|q: int| 0 <= q < k ==> #[trigger] cnt_u@[q] as int == counts_of(col@, fr)[q],
        decreases firsts.len() - k,
    {
        let c = count_of_row(col, firsts[k]);
        assert(fr[k as int] == firsts@[k as int] as int);
        assert(c <= n) by {
            lemma_count_bound(col@, firsts@[k as int] as int, n as int);
        }
        cnt.push(c as i64);
        cnt_u.push(c);
        k = k + 1;
    }
    if !sort {
        proof {
            assert(ints(cnt_u@) =~= counts_of(col@, ints(firsts@)));
        }
        return Ok((firsts, cnt_u));
    }
    let ghost cv = cnt@;
    assert(cv =~= counts_of(col@, fr).map_values(|x: int| x as i64));
    assert(ints(firsts@).len() == firsts@.len());
    let ix = crate::frame::Index { kind: crate::frame::IndexKind::Int64(cnt), name: None };
    let perm = crate::sort::argsort(&ix, ascending);
    let mut rows: Vec<usize> = Vec::new();
    let mut counts: Vec<usize> = Vec::new();
    let mut q: usize = 0;
    while q < perm.len()
        invariant
            crate::sort::sorted_perm(crate::frame::IndexKindView::Int64(cv), ascending, perm@),
            cv.len() == firsts@.len(),
            cnt_u@.len() == firsts@.len(),
            ints(firsts@) == fr,
            forall|t: int| 0 <= t < firsts@.len() ==> #[trigger] cnt_u@[t] as int == counts_of(col@, fr)[t],
            q <= perm@.len(),
            rows@.len() == q,
            counts@.len() == q,
            forall|t: int| 0 <= t < q ==> #[trigger] rows@[t] as int == fr[perm@[t] as int],
            forall|t: int| 0 <= t < q ==> #[trigger] counts@[t] as int == count_same(col@, rows@[t] as int, col@.len() as int),
        decreases perm.len() - q,
    {
        let p = perm[q];
        assert(p < cv.len());
        rows.push(firsts[p]);
        counts.push(cnt_u[p]);
        q = q + 1;
    }
    proof {
        assert(ints(rows@) =~= perm@.map_values(|p: usize| first_rows(col@)[p as int]));
        assert(ints(counts@) =~= counts_of(col@, ints(rows@)));
        assert(count_keys(col@) == crate::frame::IndexKindView::Int64(cv));
    }
    Ok((rows, counts))
}

/// A value occurs at most as often as there are rows.
proof fn lemma_count_bound(c: ColumnView, i: int, k: int)
    requires
        0 <= k,
    ensures
        count_same(c, i, k) <= k,
    decreases k,
{
    if k > 0 {
        lemma_count_bound(c, i, k - 1);
    }
}

} // verus!
