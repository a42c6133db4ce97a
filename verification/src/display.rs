//! The text table of a whole frame: which rows show, how its index labels
//! and cells read, and how they are laid out, or the empty-frame placeholder.

use vstd::prelude::*;
use crate::cells::{data_cells, index_cells, index_label_csv, spec_data_cells, spec_index_cells, spec_index_label_csv};
use crate::frame::{texts, ColumnView, Frame, FrameView, IndexKindView};
use crate::html::{render_html, spec_render_html};
use crate::reader::lead_ws;
use crate::render::{
    body_views, displayed_rows, empty_frame, frame_headers, render_table, spec_displayed_rows, spec_empty_frame,
    spec_header, spec_render_table, TableOpts,
};
use crate::time_frame::tz_ok;

verus! {

/// The labels of the empty-frame placeholder: the CSV text of every row
/// label, `None` when one has none (a datetime index with rows).
pub open spec fn spec_empty_labels(kind: IndexKindView, n: nat) -> Option<Seq<Seq<char>>> {
    if forall|i: int| 0 <= i < n ==> #[trigger] spec_index_label_csv(kind, i) is Some {
        Some(Seq::new(n, |i: int| spec_index_label_csv(kind, i)->Some_0))
    } else {
        None
    }
}

/// Whether every displayed column's cells at `rows` can be written.
pub open spec fn cells_known(f: FrameView, col_pos: Seq<usize>, rows: Seq<usize>) -> bool {
    forall|j: int| 0 <= j < col_pos.len() ==> #[trigger] spec_data_cells(f.columns[col_pos[j] as int], rows) is Some
}

/// The text table of `f` showing the columns at `col_pos`: the empty-frame
/// placeholder when it has no rows or shows no column, else the aligned
/// table of the displayed rows (the first and last `k` when `truncate` is
/// `Some(k)`), whose footer counts all rows and all columns. `None` when an
/// index label or a cell needs the full datetime format.
pub open spec fn spec_render_frame(f: FrameView, col_pos: Seq<usize>, truncate: Option<usize>, opts: TableOpts) -> Option<Seq<char>> {
    let n = f.height();
    if n == 0 || col_pos.len() == 0 {
        match spec_empty_labels(f.index.kind, n) {
            Some(labels) => Some(spec_empty_frame(col_pos.map_values(|j: usize| f.names[j as int]), labels)),
            None => None,
        }
    } else {
        let rows = spec_displayed_rows(n, truncate);
        match spec_index_cells(f.index.kind, rows) {
            Some(idx) => if cells_known(f, col_pos, rows) {
                Some(
                    spec_render_table(
                        idx,
                        match f.index.name {
                            Some(s) => s,
                            None => seq![],
                        },
                        col_pos.map_values(|j: usize| spec_header(f.names[j as int], f.columns[j as int] is Datetime)),
                        col_pos.map_values(|j: usize| spec_data_cells(f.columns[j as int], rows)->Some_0),
                        truncate is Some,
                        n,
                        f.columns.len(),
                        opts,
                    ),
                )
            } else {
                None
            },
            None => None,
        }
    }
}

/// The CSV texts of all row labels (see [`spec_empty_labels`]).
fn empty_labels(f: &Frame) -> (r: Option<Vec<String>>)
    ensures
        match r {
            Some(v) => spec_empty_labels(f@.index.kind, f@.height()) == Some(texts(v@)),
            None => spec_empty_labels(f@.index.kind, f@.height()) is None,
        },
{
    let n = f.height();
    let mut out: Vec<String> = Vec::new();
    let mut i: usize = 0;
    while i < n
        invariant
            n == f@.height(),
            f@.index.kind.len() == n,
            i <= n,
            out.len() == i,
            forall|q: int| 0 <= q < i ==> spec_index_label_csv(f@.index.kind, q) == Some(#[trigger] out@[q]@),
        decreases n - i,
    {
        match index_label_csv(f.index(), i) {
            Some(s) => out.push(s),
            None => {
                assert(spec_index_label_csv(f@.index.kind, i as int) is None);
                return None;
            },
        }
        i = i + 1;
    }
    assert forall|q: int| 0 <= q < n implies #[trigger] spec_index_label_csv(f@.index.kind, q) is Some by {
        assert(spec_index_label_csv(f@.index.kind, q) == Some(out@[q]@));
    }
    assert(texts(out@) =~= Seq::new(n as nat, |q: int| spec_index_label_csv(f@.index.kind, q)->Some_0));
    Some(out)
}

/// The cells at `rows` of each column at `col_pos`, in that order; `None`
/// when one of them cannot be written.
fn column_bodies(f: &Frame, col_pos: &Vec<usize>, rows: &Vec<usize>) -> (r: Option<Vec<Vec<String>>>)
    requires
        f@.wf(),
        forall|j: int| 0 <= j < col_pos.len() ==> #[trigger] col_pos@[j] < f@.columns.len(),
        forall|k: int| 0 <= k < rows@.len() ==> rows@[k] < f@.height(),
    ensures
        match r {
            Some(b) => {
                &&& b.len() == col_pos.len()
                &&& forall|q: int| 0 <= q < b.len() ==> (#[trigger] b@[q]).len() == rows.len()
                &&& forall|q: int| 0 <= q < b.len() ==> spec_data_cells(f@.columns[col_pos@[q] as int], rows@) == Some(texts((#[trigger] b@[q])@))
            },
            None => !cells_known(f@, col_pos@, rows@),
        },
{
    let cols = f.columns();
    let mut bodies: Vec<Vec<String>> = Vec::new();
    let mut j: usize = 0;
    while j < col_pos.len()
        invariant
            crate::frame::column_views(cols@) == f@.columns,
            f@.wf(),
            forall|k: int| 0 <= k < rows@.len() ==> rows@[k] < f@.height(),
            forall|q: int| 0 <= q < col_pos.len() ==> #[trigger] col_pos@[q] < f@.columns.len(),
            j <= col_pos.len(),
            bodies.len() == j,
            forall|q: int| 0 <= q < j ==> (#[trigger] bodies@[q]).len() == rows.len(),
            forall|q: int| 0 <= q < j ==> spec_data_cells(f@.columns[col_pos@[q] as int], rows@) == Some(texts((#[trigger] bodies@[q])@)),
        decreases col_pos.len() - j,
    {
        let p = col_pos[j];
        assert(crate::frame::column_views(cols@)[p as int] == cols@[p as int]@);
        assert(f@.columns[p as int].len() == f@.height());
        match data_cells(&cols[p], rows) {
            Some(c) => {
                assert(texts(c@).len() == rows@.len()) by {
                    match f@.columns[p as int] {
                        ColumnView::Datetime(_) => {},
                        _ => {},
                    }
                }
                bodies.push(c);
            },
            None => {
                assert(spec_data_cells(f@.columns[col_pos@[j as int] as int], rows@) is None);
                return None;
            },
        }
        j = j + 1;
    }
    Some(bodies)
}

/// Render `f` as a pandas-style text table showing the columns at
/// `col_pos`, in that order (see [`spec_render_frame`]).
pub fn render_frame(f: &Frame, col_pos: &Vec<usize>, truncate: Option<usize>, opts: TableOpts) -> (r: Option<String>)
    requires
        f@.wf(),
        f@.height() < usize::MAX,
        forall|j: int| 0 <= j < col_pos.len() ==> #[trigger] col_pos@[j] < f@.columns.len(),
        f@.height() > 0 && col_pos.len() > 0 ==> (truncate matches Some(k) ==> 1 <= k && 2 * k < f@.height()),
        f@.index.kind matches IndexKindView::Datetime(_, tz) ==> tz_ok(tz),
    ensures
        match r {
            Some(s) => spec_render_frame(f@, col_pos@, truncate, opts) == Some(s@),
            None => spec_render_frame(f@, col_pos@, truncate, opts) is None,
        },
{
    let ghost fv = f@;
    let n = f.height();
    let names = f.names();
    let cols = f.columns();
    let mut shown: Vec<String> = Vec::new();
    let mut is_dt: Vec<bool> = Vec::new();
    let mut j: usize = 0;
    while j < col_pos.len()
        invariant
            fv == f@,
            texts(names@) == fv.names,
            crate::frame::column_views(cols@) == fv.columns,
            fv.wf(),
            forall|q: int| 0 <= q < col_pos.len() ==> #[trigger] col_pos@[q] < fv.columns.len(),
            j <= col_pos.len(),
            shown.len() == j,
            is_dt.len() == j,
            forall|q: int| 0 <= q < j ==> (#[trigger] shown@[q])@ == fv.names[col_pos@[q] as int],
            forall|q: int| 0 <= q < j ==> #[trigger] is_dt@[q] == (fv.columns[col_pos@[q] as int] is Datetime),
        decreases col_pos.len() - j,
    {
        let p = col_pos[j];
        assert(texts(names@)[p as int] == names@[p as int]@);
        assert(crate::frame::column_views(cols@)[p as int] == cols@[p as int]@);
        shown.push(names[p].clone());
        is_dt.push(
            match &cols[p] {
                crate::frame::Column::Datetime(_) => true,
                _ => false,
            },
        );
        j = j + 1;
    }
    assert(texts(shown@) =~= col_pos@.map_values(|q: usize| fv.names[q as int]));
    if n == 0 || col_pos.len() == 0 {
        return match empty_labels(f) {
            Some(labels) => Some(empty_frame(&shown, &labels)),
            None => None,
        };
    }
    let (rows, truncated) = displayed_rows(n, truncate);
    let ghost rv = rows@;
    assert forall|k: int| 0 <= k < rows@.len() implies rows@[k] < n by {
        match truncate {
            Some(t) => {
                if k >= t {
                    assert(rows@[k] == (n - t + (k - t)) as usize);
                }
            },
            None => {},
        }
    }
    let idx = match index_cells(f.index(), &rows) {
        Some(v) => v,
        None => {
            return None;
        },
    };
    let headers = frame_headers(&shown, &is_dt);
    let bodies = match column_bodies(f, col_pos, &rows) {
        Some(b) => b,
        None => {
            return None;
        },
    };
    proof {
        assert(idx.len() == rows.len());
        assert(body_views(bodies@) =~= col_pos@.map_values(|p: usize| spec_data_cells(fv.columns[p as int], rv)->Some_0));
        assert(texts(headers@) =~= col_pos@.map_values(|p: usize| spec_header(fv.names[p as int], fv.columns[p as int] is Datetime)));
    }
    let iname: &str = match &f.index().name {
        Some(s) => s.as_str(),
        None => "",
    };
    proof {
        reveal_strlit("");
        assert(iname@ == match fv.index.name {
            Some(x) => x,
            None => seq![],
        });
        assert forall|q: int| 0 <= q < col_pos@.len() implies #[trigger] spec_data_cells(fv.columns[col_pos@[q] as int], rv) is Some by {
            assert(spec_data_cells(fv.columns[col_pos@[q] as int], rv) == Some(texts(bodies@[q]@)));
        }
        assert(cells_known(fv, col_pos@, rv));
    }
    let out = render_table(idx, iname, &headers, &bodies, truncated, n, f.width(), opts);
    Some(out)
}

/// A cell without its leading white space.
pub open spec fn trim_start_cell(c: Seq<char>) -> Seq<char> {
    c.subrange(lead_ws(c) as int, c.len() as int)
}

/// The Jupyter HTML table of `f`: every column, the first and last five rows
/// past sixty rows, and the cells without their leading sign space. `None`
/// when an index label or a cell needs the full datetime format.
pub open spec fn spec_render_frame_html(f: FrameView) -> Option<Seq<char>> {
    let n = f.height();
    let rows = spec_displayed_rows(n, if n > 60 { Some(5usize) } else { None });
    let all = Seq::new(f.columns.len(), |j: int| j as usize);
    match spec_index_cells(f.index.kind, rows) {
        Some(idx) => if cells_known(f, all, rows) {
            Some(
                spec_render_html(
                    f.names,
                    f.index.name,
                    idx,
                    Seq::new(
                        f.columns.len(),
                        |j: int| spec_data_cells(f.columns[j], rows)->Some_0.map_values(|c: Seq<char>| trim_start_cell(c)),
                    ),
                    n > 60,
                    n,
                ),
            )
        } else {
            None
        },
        None => None,
    }
}

/// `str::trim_start`: the string slice without its leading Unicode white
/// space.
#[verifier::external_body]
fn trim_start_text(s: &str) -> (r: &str)
    ensures
        r@ == trim_start_cell(s@),
{
    s.trim_start()
}

/// The cells without their leading white space.
fn trim_cells(cells: &Vec<String>) -> (r: Vec<String>)
    ensures
        texts(r@) == texts(cells@).map_values(|c: Seq<char>| trim_start_cell(c)),
{
    let mut out: Vec<String> = Vec::new();
    let mut i: usize = 0;
    while i < cells.len()
        invariant
            i <= cells.len(),
            out.len() == i,
            forall|q: int| 0 <= q < i ==> (#[trigger] out@[q])@ == trim_start_cell(cells@[q]@),
        decreases cells.len() - i,
    {
        out.push(trim_start_text(cells[i].as_str()).to_owned());
        i = i + 1;
    }
    assert(texts(out@) =~= texts(cells@).map_values(|c: Seq<char>| trim_start_cell(c)));
    out
}

/// Render `f` as the Jupyter HTML table pandas emits (see
/// [`spec_render_frame_html`]).
pub fn render_frame_html(f: &Frame) -> (r: Option<String>)
    requires
        f@.wf(),
        f@.index.kind matches IndexKindView::Datetime(_, tz) ==> tz_ok(tz),
    ensures
        match r {
            Some(s) => spec_render_frame_html(f@) == Some(s@),
            None => spec_render_frame_html(f@) is None,
        },
{
    let ghost fv = f@;
    let n = f.height();
    let truncate: Option<usize> = if n > 60 { Some(5) } else { None };
    let (rows, truncated) = displayed_rows(n, truncate);
    let ghost rv = rows@;
    assert forall|k: int| 0 <= k < rows@.len() implies rows@[k] < n by {
        match truncate {
            Some(t) => {
                if k >= t {
                    assert(rows@[k] == (n - t + (k - t)) as usize);
                }
            },
            None => {},
        }
    }
    let idx = match index_cells(f.index(), &rows) {
        Some(v) => v,
        None => {
            return None;
        },
    };
    let w = f.width();
    let mut all: Vec<usize> = Vec::new();
    let mut j: usize = 0;
    while j < w
        invariant
            w == fv.columns.len(),
            j <= w,
            all@ == Seq::new(j as nat, |q: int| q as usize),
        decreases w - j,
    {
        all.push(j);
        j = j + 1;
        assert(all@ =~= Seq::new(j as nat, |q: int| q as usize));
    }
    let bodies = match column_bodies(f, &all, &rows) {
        Some(b) => b,
        None => {
            return None;
        },
    };
    let mut body: Vec<Vec<String>> = Vec::new();
    let mut j: usize = 0;
    while j < bodies.len()
        invariant
            bodies.len() == w,
            all@ == Seq::new(w as nat, |q: int| q as usize),
            j <= bodies.len(),
            body.len() == j,
            forall|q: int| 0 <= q < bodies.len() ==> (#[trigger] bodies@[q]).len() == rows.len(),
            forall|q: int| 0 <= q < j ==> (#[trigger] body@[q]).len() == rows.len(),
            forall|q: int| 0 <= q < j ==> texts((#[trigger] body@[q])@) == texts(bodies@[q]@).map_values(|c: Seq<char>| trim_start_cell(c)),
        decreases bodies.len() - j,
    {
        let t = trim_cells(&bodies[j]);
        assert(texts(t@).len() == texts(bodies@[j as int]@).len());
        body.push(t);
        j = j + 1;
    }
    proof {
        assert(idx.len() == rows.len());
        assert forall|q: int| 0 <= q < w implies all@[q] == q as usize by {}
        assert(body_views(body@) =~= Seq::new(
            fv.columns.len(),
            |q: int| spec_data_cells(fv.columns[q], rv)->Some_0.map_values(|c: Seq<char>| trim_start_cell(c)),
        )) by {
            assert forall|q: int| 0 <= q < w implies #[trigger] body_views(body@)[q] == spec_data_cells(fv.columns[q], rv)->Some_0.map_values(|c: Seq<char>| trim_start_cell(c)) by {
                assert(all@[q] == q as usize);
                assert(spec_data_cells(fv.columns[all@[q] as int], rv) == Some(texts(bodies@[q]@)));
            }
        }
        assert forall|q: int| 0 <= q < all@.len() implies #[trigger] spec_data_cells(fv.columns[all@[q] as int], rv) is Some by {
            assert(spec_data_cells(fv.columns[all@[q] as int], rv) == Some(texts(bodies@[q]@)));
        }
        assert(cells_known(fv, all@, rv));
    }
    let iname: Option<&str> = match &f.index().name {
        Some(s) => Some(s.as_str()),
        None => None,
    };
    let out = render_html(f.names(), iname, idx, body, truncated, n);
    Some(out)
}

} // verus!
