//! One-shot cumulation: the coarse rows of every period of a frame, and why
//! a cumulator fed the whole frame at once produces exactly them.

use vstd::prelude::*;

use crate::agg::{spec_reduce, AggSpecView};
use crate::cumulate::{
    append_owed, coarse_rows, cumulable, fits_after, fold_fits, fold_onto, frame_runs, raw_of,
    runs_aggregate, spec_aggregate, spec_append, spec_frame, CumulatorView,
};
use crate::frame::{ColumnView, FrameView};
use crate::time_frame::TimeFrame;

verus! {

/// The one-shot cumulation of `df` into `tf` periods: the aggregate of each
/// maximal run of rows with one period key, in order; `None` when `df` cannot
/// be cumulated or some period does not aggregate.
pub open spec fn spec_cumulate(df: FrameView, tf: TimeFrame, sp: AggSpecView) -> Option<FrameView> {
    let rs = frame_runs(df, tf);
    if cumulable(df) && runs_aggregate(df, rs, sp) {
        fold_onto(None, coarse_rows(df, rs, sp))
    } else {
        None
    }
}

pub proof fn lemma_compatible_trans(f: FrameView, g: FrameView, h: FrameView)
    requires
        f.compatible(h),
        g.compatible(h),
    ensures
        f.compatible(g),
        g.compatible(f),
{
    assert forall|j: int| 0 <= j < f.columns.len() implies #[trigger] f.columns[j].same_kind(g.columns[j]) by {
        assert(f.columns[j].same_kind(h.columns[j]));
        assert(g.columns[j].same_kind(h.columns[j]));
    }
    assert forall|j: int| 0 <= j < g.columns.len() implies #[trigger] g.columns[j].same_kind(f.columns[j]) by {
        assert(f.columns[j].same_kind(h.columns[j]));
        assert(g.columns[j].same_kind(h.columns[j]));
    }
}

/// Compatibility goes both ways.
pub proof fn lemma_compatible_sym(f: FrameView, g: FrameView)
    requires
        f.compatible(g),
    ensures
        g.compatible(f),
{
    assert forall|j: int| 0 <= j < g.columns.len() implies #[trigger] g.columns[j].same_kind(f.columns[j]) by {
        assert(f.columns[j].same_kind(g.columns[j]));
    }
}

pub proof fn lemma_slice_compatible(f: FrameView, a: int, b: int)
    ensures
        f.slice(a, b).compatible(f),
{
    let g = f.slice(a, b);
    assert forall|j: int| 0 <= j < g.columns.len() implies #[trigger] g.columns[j].same_kind(f.columns[j]) by {
        assert(g.columns[j] == f.columns[j].slice(a, b));
    }
}

pub proof fn lemma_reduce_shape(a: crate::agg::Agg, col: ColumnView, kept: Seq<usize>)
    requires
        spec_reduce(a, col, kept) is Some,
    ensures
        spec_reduce(a, col, kept)->Some_0.same_kind(col),
        spec_reduce(a, col, kept)->Some_0.len() == 1,
{
}

/// A period's aggregate is one row with the period's column names and dtypes
/// and a datetime index.
pub proof fn lemma_aggregate_shape(p: FrameView, sp: AggSpecView)
    requires
        spec_aggregate(p, sp) is Some,
        p.names.len() == p.columns.len(),
    ensures
        spec_aggregate(p, sp)->Some_0.compatible(p),
        spec_aggregate(p, sp)->Some_0.wf(),
        spec_aggregate(p, sp)->Some_0.height() == 1,
{
    reveal(spec_aggregate);
    let r = spec_aggregate(p, sp)->Some_0;
    let ts = p.index.kind->Datetime_0;
    let kept = crate::cumulate::spec_dedup(ts);
    let cs = crate::cumulate::agg_columns(p, sp, kept);
    assert forall|j: int| 0 <= j < r.columns.len() implies #[trigger] r.columns[j].same_kind(p.columns[j]) && r.columns[j].len() == 1 by {
        assert(cs[j] is Some);
        assert(r.columns[j] == cs[j]->Some_0);
        lemma_reduce_shape(crate::agg::spec_agg_for(sp, p.names[j]), p.columns[j], kept);
    }
}

proof fn lemma_col_concat(x: ColumnView, y: ColumnView, z: ColumnView)
    requires
        x.same_kind(y),
        x.same_kind(z),
    ensures
        x.concat(y).same_kind(z),
        x.concat(y).len() == x.len() + y.len(),
{
    match (x, y) {
        (ColumnView::I64(v), ColumnView::I64(w)) => {},
        (ColumnView::Datetime(v), ColumnView::Datetime(w)) => {},
        (ColumnView::Bool(v), ColumnView::Bool(w)) => {},
        (ColumnView::Str(v), ColumnView::Str(w)) => {},
        _ => {},
    }
}

pub proof fn lemma_concat_shape(f: FrameView, g: FrameView, h: FrameView)
    requires
        f.wf(),
        g.wf(),
        f.compatible(g),
        f.compatible(h),
    ensures
        f.concat(g).wf(),
        f.concat(g).compatible(h),
        f.concat(g).height() == f.height() + g.height(),
{
    let c = f.concat(g);
    assert forall|j: int| 0 <= j < c.columns.len() implies #[trigger] c.columns[j].same_kind(h.columns[j])
        && c.columns[j].len() == f.height() + g.height() by {
        assert(f.columns[j].len() == f.height());
        assert(g.columns[j].len() == g.height());
        assert(f.columns[j].same_kind(g.columns[j]));
        assert(f.columns[j].same_kind(h.columns[j]));
        assert(c.columns[j] == f.columns[j].concat(g.columns[j]));
        lemma_col_concat(f.columns[j], g.columns[j], h.columns[j]);
    }
    assert(c.index.kind.same_kind(h.index.kind) && c.index.kind.len() == f.height() + g.height()) by {
        match (f.index.kind, g.index.kind) {
            (crate::frame::IndexKindView::Range(a), crate::frame::IndexKindView::Range(b)) => {},
            (crate::frame::IndexKindView::Int64(a), crate::frame::IndexKindView::Int64(b)) => {},
            (crate::frame::IndexKindView::Datetime(a, _), crate::frame::IndexKindView::Datetime(b, _)) => {},
            (crate::frame::IndexKindView::Str(a), crate::frame::IndexKindView::Str(b)) => {},
            _ => {},
        }
    }
    assert forall|j: int| 0 <= j < c.columns.len() implies #[trigger] c.columns[j].len() == c.index.kind.len() by {
        assert(c.columns[j].same_kind(h.columns[j]));
    }
}

/// Folding the aggregates of some runs of `df` never meets an incompatible
/// row, and gives one row per run, shaped like `df`.
pub proof fn lemma_fold_rows(df: FrameView, rs: Seq<(int, int)>, sp: AggSpecView)
    requires
        df.names.len() == df.columns.len(),
        runs_aggregate(df, rs, sp),
        rs.len() <= usize::MAX,
    ensures
        fold_fits(None, coarse_rows(df, rs, sp)),
        rs.len() == 0 ==> fold_onto(None, coarse_rows(df, rs, sp)) is None,
        rs.len() > 0 ==> (fold_onto(None, coarse_rows(df, rs, sp)) matches Some(f) && f.compatible(df) && f.wf()
            && f.height() == rs.len()),
    decreases rs.len(),
{
    let rows = coarse_rows(df, rs, sp);
    if rs.len() > 0 {
        let p = rs.drop_last();
        let rows0 = coarse_rows(df, p, sp);
        assert(rows.drop_last() =~= rows0);
        assert(runs_aggregate(df, p, sp)) by {
            assert forall|i: int| 0 <= i < p.len() implies (#[trigger] spec_aggregate(df.slice(p[i].0, p[i].1), sp)) is Some by {
                assert(p[i] == rs[i]);
            }
        }
        lemma_fold_rows(df, p, sp);
        let n = rs.len() - 1;
        assert(spec_aggregate(df.slice(rs[n].0, rs[n].1), sp) is Some);
        let piece = df.slice(rs[n].0, rs[n].1);
        lemma_aggregate_shape(piece, sp);
        lemma_slice_compatible(df, rs[n].0, rs[n].1);
        let row = rows[n];
        assert(row == spec_aggregate(piece, sp)->Some_0);
        lemma_compatible_trans(row, df, piece);
        assert(row.compatible(df));
        if p.len() > 0 {
            let f0 = fold_onto(None, rows0)->Some_0;
            lemma_compatible_trans(f0, row, df);
            lemma_concat_shape(f0, row, df);
        }
        assert(rows.take(n) =~= rows0);
        assert forall|i: int| 0 <= i < rows.len() implies fits_after(#[trigger] fold_onto(None, rows.take(i)), rows[i]) by {
            if i < n {
                assert(rows.take(i) =~= rows0.take(i));
                assert(rows[i] == rows0[i]);
                assert(fits_after(fold_onto(None, rows0.take(i)), rows0[i]));
            }
        }
    }
}

/// The number of runs never exceeds the number of rows.
proof fn lemma_runs_len(k: Seq<int>)
    ensures
        crate::cumulate::spec_runs(k).len() <= k.len(),
        k.len() > 0 ==> crate::cumulate::spec_runs(k).len() > 0,
    decreases k.len(),
{
    if k.len() > 1 {
        lemma_runs_len(k.drop_last());
        let r = crate::cumulate::spec_runs(k.drop_last());
        assert(r.len() > 0);
    }
}

pub proof fn lemma_frame_runs_len(f: FrameView, tf: TimeFrame)
    requires
        cumulable(f),
    ensures
        frame_runs(f, tf).len() <= f.height(),
{
    let (ts, tz) = match f.index.kind {
        crate::frame::IndexKindView::Datetime(v, z) => (v, z),
        _ => (seq![], crate::time_frame::Tz::Utc),
    };
    crate::cumulate::lemma_keys_len(ts, tf, tz);
    lemma_runs_len(crate::cumulate::spec_keys(ts, tf, tz));
}

/// Whether the runs aggregate splits into the runs before the last and the
/// last one.
proof fn lemma_runs_aggregate_last(f: FrameView, rs: Seq<(int, int)>, sp: AggSpecView)
    requires
        rs.len() > 0,
    ensures
        runs_aggregate(f, rs, sp) == (runs_aggregate(f, rs.drop_last(), sp) && spec_aggregate(
            f.slice(rs.last().0, rs.last().1),
            sp,
        ) is Some),
{
    let p = rs.drop_last();
    if runs_aggregate(f, rs, sp) {
        assert forall|i: int| 0 <= i < p.len() implies (#[trigger] spec_aggregate(f.slice(p[i].0, p[i].1), sp)) is Some by {
            assert(p[i] == rs[i]);
        }
        assert(spec_aggregate(f.slice(rs[rs.len() - 1].0, rs[rs.len() - 1].1), sp) is Some);
    }
    if runs_aggregate(f, p, sp) && spec_aggregate(f.slice(rs.last().0, rs.last().1), sp) is Some {
        assert forall|i: int| 0 <= i < rs.len() implies (#[trigger] spec_aggregate(f.slice(rs[i].0, rs[i].1), sp)) is Some by {
            if i < p.len() {
                assert(p[i] == rs[i]);
            }
        }
    }
}

/// Feeding a whole frame to a fresh cumulator succeeds exactly when the frame
/// can be cumulated with every period but the last aggregating, and the
/// cumulated frame it then shows is the one-shot cumulation.
pub proof fn lemma_one_shot(df: FrameView, tf: TimeFrame, sp: AggSpecView)
    requires
        df.wf(),
        df.height() <= usize::MAX,
    ensures
        append_owed(CumulatorView { tf, spec: sp, closed: None, open: None }, df) == (cumulable(df) && runs_aggregate(
            df,
            frame_runs(df, tf).drop_last(),
            sp,
        )),
        append_owed(CumulatorView { tf, spec: sp, closed: None, open: None }, df) ==> spec_frame(
            spec_append(CumulatorView { tf, spec: sp, closed: None, open: None }, df),
        ) == spec_cumulate(df, tf, sp),
{
    let c = CumulatorView { tf, spec: sp, closed: None, open: None };
    assert(raw_of(c, df) == df);
    let rs = frame_runs(df, tf);
    if cumulable(df) && runs_aggregate(df, rs.drop_last(), sp) {
        lemma_frame_runs_len(df, tf);
        crate::cumulate_laws::lemma_frame_runs_shape(df, tf);
        lemma_fold_rows(df, rs.drop_last(), sp);
        let s = spec_append(c, df);
        let last = rs.last();
        let open = df.slice(last.0, last.1);
        assert(s.open == Some(open));
        lemma_runs_aggregate_last(df, rs, sp);
        let rows = coarse_rows(df, rs, sp);
        assert(rows.drop_last() =~= coarse_rows(df, rs.drop_last(), sp));
        if spec_aggregate(open, sp) is Some {
            lemma_fold_rows(df, rs, sp);
            lemma_aggregate_shape(open, sp);
            lemma_slice_compatible(df, last.0, last.1);
            let l = spec_aggregate(open, sp)->Some_0;
            assert(rows.last() == l);
            if rs.len() > 1 {
                let cl = fold_onto(None, coarse_rows(df, rs.drop_last(), sp))->Some_0;
                lemma_compatible_trans(l, df, open);
                lemma_compatible_trans(cl, l, df);
            }
        }
    }
}

} // verus!
