//! Feeding bars to a cumulator in pieces gives what feeding them at once
//! gives.

use vstd::prelude::*;

use crate::agg::AggSpecView;
use crate::cumulate::{
    append_owed, coarse_rows, cumulable, fold_onto, frame_runs, lemma_runs_shape, raw_of, runs_aggregate,
    spec_aggregate, spec_append, spec_frame, spec_keys, spec_runs, CumulatorView,
};
use crate::one_shot::spec_cumulate;
use crate::frame::{ColumnView, FrameView, IndexKindView, IndexView};
use crate::time_frame::TimeFrame;

verus! {

pub open spec fn shift(r: Seq<(int, int)>, s: int) -> Seq<(int, int)> {
    r.map_values(|p: (int, int)| (p.0 + s, p.1 + s))
}

/// All keys equal: one run.
pub proof fn lemma_runs_const(c: Seq<int>)
    requires
        c.len() > 0,
        forall|i: int| 0 <= i < c.len() ==> #[trigger] c[i] == c[0],
    ensures
        spec_runs(c) == seq![(0int, c.len() as int)],
    decreases c.len(),
{
    if c.len() > 1 {
        let p = c.drop_last();
        assert forall|i: int| 0 <= i < p.len() implies #[trigger] p[i] == p[0] by {
            assert(p[i] == c[i]);
        }
        lemma_runs_const(p);
        assert(c[c.len() - 1] == c[0]);
        assert(c[c.len() - 2] == c[0]);
        assert(spec_runs(c) =~= seq![(0int, c.len() as int)]);
    }
}

/// The runs of `k + b`: those of `k` before its last run, then the runs of
/// the last run of `k` followed by `b`, shifted to their place.
pub proof fn lemma_runs_concat(k: Seq<int>, b: Seq<int>)
    requires
        k.len() > 0,
    ensures
        spec_runs(k + b) == spec_runs(k).drop_last() + shift(
            spec_runs(k.subrange(spec_runs(k).last().0, k.len() as int) + b),
            spec_runs(k).last().0,
        ),
    decreases b.len(),
{
    lemma_runs_shape(k);
    let rs = spec_runs(k);
    let s = rs.last().0;
    let c = k.subrange(s, k.len() as int);
    if b.len() == 0 {
        assert(k + b =~= k);
        assert(c + b =~= c);
        assert forall|i: int| 0 <= i < c.len() implies #[trigger] c[i] == c[0] by {
            assert(c[i] == k[s + i]);
            assert(k[s + i] == k[k.len() - 1]);
            assert(k[s] == k[k.len() - 1]);
        }
        lemma_runs_const(c);
        assert(rs =~= rs.drop_last() + shift(seq![(0int, c.len() as int)], s));
    } else {
        let b2 = b.drop_last();
        lemma_runs_concat(k, b2);
        let kb = k + b;
        let cb = c + b;
        assert(kb.drop_last() =~= k + b2);
        assert(cb.drop_last() =~= c + b2);
        let n = kb.len() as int;
        let m = cb.len() as int;
        assert(n == m + s);
        assert(kb[n - 1] == cb[m - 1]);
        assert(kb[n - 2] == cb[m - 2]) by {
            if b2.len() == 0 {
                assert(kb[n - 2] == k[k.len() - 1]);
                assert(cb[m - 2] == c[c.len() - 1]);
            } else {
                assert(kb[n - 2] == b2[b2.len() - 1]);
                assert(cb[m - 2] == b2[b2.len() - 1]);
            }
        }
        let q = spec_runs(c + b2);
        assert(c.len() > 0);
        lemma_runs_shape(c + b2);
        let pre = rs.drop_last();
        assert(spec_runs(k + b2) == pre + shift(q, s));
        if kb[n - 1] == kb[n - 2] {
            assert(spec_runs(cb) == q.update(q.len() - 1, (q.last().0, m)));
            assert(spec_runs(kb) =~= pre + shift(q.update(q.len() - 1, (q.last().0, m)), s));
        } else {
            assert(spec_runs(cb) == q.push((m - 1, m)));
            assert(spec_runs(kb) =~= pre + shift(q.push((m - 1, m)), s));
        }
    }
}

/// Rows `a..b` of `x` followed by `y`, when they lie within `x`.
proof fn lemma_col_prefix(x: ColumnView, y: ColumnView, a: int, b: int)
    requires
        x.same_kind(y),
        0 <= a <= b <= x.len(),
    ensures
        x.concat(y).slice(a, b) == x.slice(a, b),
{
    match (x, y) {
        (ColumnView::I64(v), ColumnView::I64(w)) => assert((v + w).subrange(a, b) =~= v.subrange(a, b)),
        (ColumnView::Datetime(v), ColumnView::Datetime(w)) => assert((v + w).subrange(a, b) =~= v.subrange(a, b)),
        (ColumnView::Bool(v), ColumnView::Bool(w)) => assert((v + w).subrange(a, b) =~= v.subrange(a, b)),
        (ColumnView::Str(v), ColumnView::Str(w)) => assert((v + w).subrange(a, b) =~= v.subrange(a, b)),
        _ => {},
    }
}

/// Rows `a..b` of the tail `s..` of `x` followed by `y` are rows
/// `s + a..s + b` of `x` followed by `y`.
proof fn lemma_col_shift(x: ColumnView, y: ColumnView, s: int, a: int, b: int)
    requires
        x.same_kind(y),
        0 <= s <= x.len(),
        0 <= a <= b <= x.len() - s + y.len(),
    ensures
        x.slice(s, x.len() as int).concat(y).slice(a, b) == x.concat(y).slice(s + a, s + b),
{
    let n = x.len() as int;
    match (x, y) {
        (ColumnView::I64(v), ColumnView::I64(w)) => assert((v.subrange(s, n) + w).subrange(a, b) =~= (v + w).subrange(s + a, s + b)),
        (ColumnView::Datetime(v), ColumnView::Datetime(w)) => assert((v.subrange(s, n) + w).subrange(a, b) =~= (v + w).subrange(s + a, s + b)),
        (ColumnView::Bool(v), ColumnView::Bool(w)) => assert((v.subrange(s, n) + w).subrange(a, b) =~= (v + w).subrange(s + a, s + b)),
        (ColumnView::Str(v), ColumnView::Str(w)) => assert((v.subrange(s, n) + w).subrange(a, b) =~= (v + w).subrange(s + a, s + b)),
        _ => {},
    }
}

proof fn lemma_index_prefix(x: IndexKindView, y: IndexKindView, a: int, b: int)
    requires
        x.same_kind(y),
        0 <= a <= b <= x.len(),
    ensures
        x.concat(y).slice(a, b) == x.slice(a, b),
{
    match (x, y) {
        (IndexKindView::Int64(v), IndexKindView::Int64(w)) => assert((v + w).subrange(a, b) =~= v.subrange(a, b)),
        (IndexKindView::Datetime(v, _), IndexKindView::Datetime(w, _)) => assert((v + w).subrange(a, b) =~= v.subrange(a, b)),
        (IndexKindView::Str(v), IndexKindView::Str(w)) => assert((v + w).subrange(a, b) =~= v.subrange(a, b)),
        _ => {},
    }
}

proof fn lemma_index_shift(x: IndexKindView, y: IndexKindView, s: int, a: int, b: int)
    requires
        x.same_kind(y),
        0 <= s <= x.len(),
        0 <= a <= b <= x.len() - s + y.len(),
    ensures
        x.slice(s, x.len() as int).concat(y).slice(a, b) == x.concat(y).slice(s + a, s + b),
{
    let n = x.len() as int;
    match (x, y) {
        (IndexKindView::Int64(v), IndexKindView::Int64(w)) => assert((v.subrange(s, n) + w).subrange(a, b) =~= (v + w).subrange(s + a, s + b)),
        (IndexKindView::Datetime(v, _), IndexKindView::Datetime(w, _)) => assert((v.subrange(s, n) + w).subrange(a, b) =~= (v + w).subrange(s + a, s + b)),
        (IndexKindView::Str(v), IndexKindView::Str(w)) => assert((v.subrange(s, n) + w).subrange(a, b) =~= (v + w).subrange(s + a, s + b)),
        _ => {},
    }
}

/// Rows within `x` of `x` followed by `y` are rows of `x`.
pub proof fn lemma_frame_prefix(x: FrameView, y: FrameView, a: int, b: int)
    requires
        x.wf(),
        x.compatible(y),
        0 <= a <= b <= x.height(),
    ensures
        x.concat(y).slice(a, b) == x.slice(a, b),
{
    let l = x.concat(y).slice(a, b);
    let r = x.slice(a, b);
    assert forall|j: int| 0 <= j < x.columns.len() implies #[trigger] l.columns[j] == r.columns[j] by {
        assert(x.columns[j].len() == x.height());
        lemma_col_prefix(x.columns[j], y.columns[j], a, b);
    }
    assert(l.columns =~= r.columns);
    lemma_index_prefix(x.index.kind, y.index.kind, a, b);
}

/// Rows `a..b` of the tail `s..` of `x` followed by `y` are rows
/// `s + a..s + b` of `x` followed by `y`.
pub proof fn lemma_frame_shift(x: FrameView, y: FrameView, s: int, a: int, b: int)
    requires
        x.wf(),
        y.wf(),
        x.compatible(y),
        0 <= s <= x.height(),
        0 <= a <= b <= x.height() - s + y.height(),
    ensures
        x.slice(s, x.height() as int).concat(y).slice(a, b) == x.concat(y).slice(s + a, s + b),
{
    let n = x.height() as int;
    let l = x.slice(s, n).concat(y).slice(a, b);
    let r = x.concat(y).slice(s + a, s + b);
    assert forall|j: int| 0 <= j < x.columns.len() implies #[trigger] l.columns[j] == r.columns[j] by {
        assert(x.columns[j].len() == n);
        assert(y.columns[j].len() == y.height());
        lemma_col_shift(x.columns[j], y.columns[j], s, a, b);
    }
    assert(l.columns =~= r.columns);
    lemma_index_shift(x.index.kind, y.index.kind, s, a, b);
}

/// Folding two lists of rows one after the other folds their concatenation.
pub proof fn lemma_fold_concat(init: Option<FrameView>, p: Seq<FrameView>, q: Seq<FrameView>)
    ensures
        fold_onto(fold_onto(init, p), q) == fold_onto(init, p + q),
    decreases q.len(),
{
    if q.len() == 0 {
        assert(p + q =~= p);
    } else {
        lemma_fold_concat(init, p, q.drop_last());
        assert((p + q).drop_last() =~= p + q.drop_last());
        assert((p + q).last() == q.last());
    }
}


/// The runs of a cumulable frame tile its rows, and those before the last
/// end where the last begins.
pub proof fn lemma_frame_runs_shape(f: FrameView, tf: TimeFrame)
    requires
        cumulable(f),
    ensures
        frame_runs(f, tf).len() > 0,
        frame_runs(f, tf).last().1 == f.height(),
        0 <= frame_runs(f, tf).last().0 < f.height(),
        forall|i: int| 0 <= i < frame_runs(f, tf).len() ==> 0 <= (#[trigger] frame_runs(f, tf)[i]).0 < frame_runs(f, tf)[i].1 <= f.height(),
        forall|i: int| 0 <= i < frame_runs(f, tf).len() - 1 ==> (#[trigger] frame_runs(f, tf)[i]).1 <= frame_runs(f, tf).last().0,
{
    let (ts, tz) = match f.index.kind {
        IndexKindView::Datetime(v, z) => (v, z),
        _ => (seq![], crate::time_frame::Tz::Utc),
    };
    crate::cumulate::lemma_keys_len(ts, tf, tz);
    lemma_runs_shape(spec_keys(ts, tf, tz));
}

/// The start of the last run of `a`.
pub open spec fn last_start(a: FrameView, tf: TimeFrame) -> int {
    frame_runs(a, tf).last().0
}

/// The open period of `a` followed by `b`.
pub open spec fn reopened(a: FrameView, b: FrameView, tf: TimeFrame) -> FrameView {
    a.slice(last_start(a, tf), a.height() as int).concat(b)
}

proof fn lemma_split_runs(tf: TimeFrame, a: FrameView, b: FrameView)
    requires
        cumulable(a),
        b.wf(),
        a.slice(last_start(a, tf), a.height() as int).compatible(b),
    ensures
        a.compatible(b),
        frame_runs(a, tf).len() > 0,
        0 <= last_start(a, tf) < a.height(),
        forall|i: int| 0 <= i < frame_runs(a, tf).len() - 1 ==> 0 <= (#[trigger] frame_runs(a, tf)[i]).0 < frame_runs(a, tf)[i].1 <= last_start(a, tf),
        frame_runs(a.concat(b), tf) == frame_runs(a, tf).drop_last() + shift(frame_runs(reopened(a, b, tf), tf), last_start(a, tf)),
        frame_runs(reopened(a, b, tf), tf).len() > 0,
        forall|i: int| 0 <= i < frame_runs(reopened(a, b, tf), tf).len() ==> 0 <= (#[trigger] frame_runs(reopened(a, b, tf), tf)[i]).0
            < frame_runs(reopened(a, b, tf), tf)[i].1 <= reopened(a, b, tf).height(),
        reopened(a, b, tf).height() == a.height() - last_start(a, tf) + b.height(),
{
    let n = a.height() as int;
    let (tsa, tz) = match a.index.kind {
        IndexKindView::Datetime(v, z) => (v, z),
        _ => (seq![], crate::time_frame::Tz::Utc),
    };
    crate::cumulate::lemma_keys_len(tsa, tf, tz);
    let ka = spec_keys(tsa, tf, tz);
    lemma_runs_shape(ka);
    lemma_frame_runs_shape(a, tf);
    let sl = a.slice(last_start(a, tf), n);
    assert forall|j: int| 0 <= j < a.columns.len() implies #[trigger] a.columns[j].same_kind(b.columns[j]) by {
        assert(sl.columns[j] == a.columns[j].slice(last_start(a, tf), n));
        assert(sl.columns[j].same_kind(b.columns[j]));
    }
    let rsa = spec_runs(ka);
    let s = rsa.last().0;
    let tsb = match b.index.kind {
        IndexKindView::Datetime(v, _) => v,
        _ => seq![],
    };
    let kb = spec_keys(tsb, tf, tz);
    crate::cumulate::lemma_keys_len(tsb, tf, tz);
    let raw2 = reopened(a, b, tf);
    assert(a.concat(b).index.kind == IndexKindView::Datetime(tsa + tsb, tz));
    assert(raw2.index.kind == IndexKindView::Datetime(tsa.subrange(s, n) + tsb, tz));
    crate::cumulate::lemma_keys_concat(tsa, tsb, tf, tz);
    crate::cumulate::lemma_keys_concat(tsa.subrange(s, n), tsb, tf, tz);
    crate::cumulate::lemma_keys_subrange(tsa, s, n, tf, tz);
    crate::cumulate::lemma_keys_concat(tsa, seq![], tf, tz);
    lemma_runs_concat(ka, kb);
    lemma_runs_shape(ka.subrange(s, n) + kb);
}

proof fn lemma_rows_prefix(a: FrameView, b: FrameView, pre: Seq<(int, int)>, sp: AggSpecView)
    requires
        a.wf(),
        a.compatible(b),
        forall|i: int| 0 <= i < pre.len() ==> 0 <= (#[trigger] pre[i]).0 <= pre[i].1 <= a.height(),
    ensures
        coarse_rows(a.concat(b), pre, sp) == coarse_rows(a, pre, sp),
        runs_aggregate(a.concat(b), pre, sp) == runs_aggregate(a, pre, sp),
{
    assert forall|i: int| 0 <= i < pre.len() implies #[trigger] a.concat(b).slice(pre[i].0, pre[i].1) == a.slice(pre[i].0, pre[i].1) by {
        lemma_frame_prefix(a, b, pre[i].0, pre[i].1);
    }
    assert forall|i: int| 0 <= i < pre.len() implies #[trigger] spec_aggregate(a.concat(b).slice(pre[i].0, pre[i].1), sp) == spec_aggregate(a.slice(pre[i].0, pre[i].1), sp) by {
        lemma_frame_prefix(a, b, pre[i].0, pre[i].1);
    }
    assert(coarse_rows(a.concat(b), pre, sp) =~= coarse_rows(a, pre, sp));
    if runs_aggregate(a, pre, sp) {
        assert forall|i: int| 0 <= i < pre.len() implies (#[trigger] spec_aggregate(a.concat(b).slice(pre[i].0, pre[i].1), sp)) is Some by {
            assert(spec_aggregate(a.slice(pre[i].0, pre[i].1), sp) is Some);
        }
    }
    if runs_aggregate(a.concat(b), pre, sp) {
        assert forall|i: int| 0 <= i < pre.len() implies (#[trigger] spec_aggregate(a.slice(pre[i].0, pre[i].1), sp)) is Some by {
            assert(spec_aggregate(a.concat(b).slice(pre[i].0, pre[i].1), sp) is Some);
        }
    }
}

proof fn lemma_rows_shift(a: FrameView, b: FrameView, s: int, rs: Seq<(int, int)>, sp: AggSpecView)
    requires
        a.wf(),
        b.wf(),
        a.compatible(b),
        0 <= s <= a.height(),
        forall|i: int| 0 <= i < rs.len() ==> 0 <= (#[trigger] rs[i]).0 <= rs[i].1 <= a.height() - s + b.height(),
    ensures
        coarse_rows(a.concat(b), shift(rs, s), sp) == coarse_rows(a.slice(s, a.height() as int).concat(b), rs, sp),
        runs_aggregate(a.concat(b), shift(rs, s), sp) == runs_aggregate(a.slice(s, a.height() as int).concat(b), rs, sp),
{
    let sh = shift(rs, s);
    assert forall|i: int| 0 <= i < sh.len() implies #[trigger] a.concat(b).slice(sh[i].0, sh[i].1) == a.slice(
        s,
        a.height() as int,
    ).concat(b).slice(rs[i].0, rs[i].1) by {
        lemma_frame_shift(a, b, s, rs[i].0, rs[i].1);
    }
    assert forall|i: int| 0 <= i < sh.len() implies #[trigger] spec_aggregate(a.concat(b).slice(sh[i].0, sh[i].1), sp) == spec_aggregate(a.slice(
        s,
        a.height() as int,
    ).concat(b).slice(rs[i].0, rs[i].1), sp) by {
        lemma_frame_shift(a, b, s, rs[i].0, rs[i].1);
    }
    let raw = a.slice(s, a.height() as int).concat(b);
    assert(coarse_rows(a.concat(b), sh, sp) =~= coarse_rows(raw, rs, sp));
    if runs_aggregate(raw, rs, sp) {
        assert forall|i: int| 0 <= i < sh.len() implies (#[trigger] spec_aggregate(a.concat(b).slice(sh[i].0, sh[i].1), sp)) is Some by {
            assert(spec_aggregate(raw.slice(rs[i].0, rs[i].1), sp) is Some);
        }
    }
    if runs_aggregate(a.concat(b), sh, sp) {
        assert forall|i: int| 0 <= i < rs.len() implies (#[trigger] spec_aggregate(raw.slice(rs[i].0, rs[i].1), sp)) is Some by {
            assert(spec_aggregate(a.concat(b).slice(sh[i].0, sh[i].1), sp) is Some);
        }
    }
}

proof fn lemma_runs_aggregate_concat(f: FrameView, p: Seq<(int, int)>, q: Seq<(int, int)>, sp: AggSpecView)
    ensures
        runs_aggregate(f, p + q, sp) == (runs_aggregate(f, p, sp) && runs_aggregate(f, q, sp)),
{
    if runs_aggregate(f, p, sp) && runs_aggregate(f, q, sp) {
        assert forall|i: int| 0 <= i < (p + q).len() implies (#[trigger] spec_aggregate(
            f.slice((p + q)[i].0, (p + q)[i].1),
            sp,
        )) is Some by {
            if i >= p.len() {
                assert((p + q)[i] == q[i - p.len()]);
            }
        }
    }
    if runs_aggregate(f, p + q, sp) {
        assert forall|i: int| 0 <= i < q.len() implies (#[trigger] spec_aggregate(f.slice(q[i].0, q[i].1), sp)) is Some by {
            assert((p + q)[i + p.len()] == q[i]);
        }
        assert forall|i: int| 0 <= i < p.len() implies (#[trigger] spec_aggregate(f.slice(p[i].0, p[i].1), sp)) is Some by {
            assert((p + q)[i] == p[i]);
        }
    }
}

/// A fresh cumulator's state.
pub open spec fn fresh(tf: TimeFrame, sp: AggSpecView) -> CumulatorView {
    CumulatorView { tf, spec: sp, closed: None, open: None }
}

/// Feeding `a` and then `b` to a fresh cumulator leaves it in the state that
/// feeding `a` followed by `b` at once does: incremental cumulation matches
/// one-shot cumulation.
pub proof fn law_incremental_matches_one_shot(tf: TimeFrame, sp: AggSpecView, a: FrameView, b: FrameView)
    requires
        a.wf(),
        b.wf(),
        a.height() + b.height() <= usize::MAX,
        append_owed(fresh(tf, sp), a),
        append_owed(spec_append(fresh(tf, sp), a), b),
    ensures
        spec_append(spec_append(fresh(tf, sp), a), b) == spec_append(fresh(tf, sp), a.concat(b)),
        append_owed(fresh(tf, sp), a.concat(b)),
        spec_frame(spec_append(spec_append(fresh(tf, sp), a), b)) == spec_cumulate(a.concat(b), tf, sp),
{
    let e = fresh(tf, sp);
    let c1 = spec_append(e, a);
    let n = a.height() as int;
    let s = last_start(a, tf);
    let raw2 = reopened(a, b, tf);
    assert(raw_of(e, a) == a);
    lemma_frame_runs_shape(a, tf);
    assert(raw_of(c1, b) == raw2);
    lemma_split_runs(tf, a, b);
    let ab = a.concat(b);
    let rsa = frame_runs(a, tf);
    let rs2 = frame_runs(raw2, tf);
    let rsab = frame_runs(ab, tf);
    let pre = rsa.drop_last();
    assert(rsab.drop_last() =~= pre + shift(rs2.drop_last(), s));
    assert forall|i: int| 0 <= i < pre.len() implies 0 <= (#[trigger] pre[i]).0 <= pre[i].1 <= a.height() by {
        assert(pre[i] == rsa[i]);
    }
    lemma_rows_prefix(a, b, pre, sp);
    assert forall|i: int| 0 <= i < rs2.drop_last().len() implies 0 <= (#[trigger] rs2.drop_last()[i]).0 <= rs2.drop_last()[i].1 <= a.height() - s + b.height() by {
        assert(rs2.drop_last()[i] == rs2[i]);
    }
    lemma_rows_shift(a, b, s, rs2.drop_last(), sp);
    let rows_a = coarse_rows(a, pre, sp);
    let rows_2 = coarse_rows(raw2, rs2.drop_last(), sp);
    assert(shift(rs2.drop_last(), s) =~= shift(rs2, s).drop_last());
    assert(coarse_rows(ab, pre + shift(rs2.drop_last(), s), sp) =~= coarse_rows(ab, pre, sp) + coarse_rows(
        ab,
        shift(rs2.drop_last(), s),
        sp,
    ));
    lemma_fold_concat(None, rows_a, rows_2);
    lemma_runs_aggregate_concat(ab, pre, shift(rs2.drop_last(), s), sp);
    let last2 = rs2.last();
    assert(rsab.last() == (last2.0 + s, last2.1 + s));
    lemma_frame_shift(a, b, s, last2.0, last2.1);
    assert(cumulable(ab)) by {
        let ts = match ab.index.kind {
            IndexKindView::Datetime(v, _) => v,
            _ => seq![],
        };
        let tsa = match a.index.kind {
            IndexKindView::Datetime(v, _) => v,
            _ => seq![],
        };
        let ts2 = match raw2.index.kind {
            IndexKindView::Datetime(v, _) => v,
            _ => seq![],
        };
        assert forall|i: int| 0 <= i < ts.len() implies #[trigger] ts[i] != i64::MIN by {
            if i >= s {
                assert(ts[i] == ts2[i - s]);
            } else {
                assert(ts[i] == tsa[i]);
            }
        }
        assert forall|j: int| 0 <= j < ab.columns.len() implies #[trigger] ab.columns[j].len() == ab.index.kind.len() by {
            assert(a.columns[j].len() == a.height());
            assert(b.columns[j].len() == b.height());
            assert(a.columns[j].same_kind(b.columns[j]));
            assert(ab.columns[j] == a.columns[j].concat(b.columns[j]));
        }
    }
    crate::one_shot::lemma_frame_runs_len(ab, tf);
    crate::one_shot::lemma_fold_rows(ab, rsab.drop_last(), sp);
    crate::one_shot::lemma_one_shot(ab, tf, sp);
}

/// Chunks of bars laid end to end (a single chunk is itself).
pub open spec fn concat_all(chunks: Seq<FrameView>) -> FrameView
    decreases chunks.len(),
{
    if chunks.len() <= 1 {
        chunks[0]
    } else {
        concat_all(chunks.drop_last()).concat(chunks.last())
    }
}

/// The number of bars in all the chunks.
pub open spec fn total_height(chunks: Seq<FrameView>) -> int
    decreases chunks.len(),
{
    if chunks.len() == 0 {
        0
    } else {
        total_height(chunks.drop_last()) + chunks.last().height()
    }
}

/// The state after appending each chunk in turn.
pub open spec fn append_all(c: CumulatorView, chunks: Seq<FrameView>) -> CumulatorView
    decreases chunks.len(),
{
    if chunks.len() == 0 {
        c
    } else {
        spec_append(append_all(c, chunks.drop_last()), chunks.last())
    }
}

/// Whether each append of the chunks, in turn, succeeds.
pub open spec fn appends_owed(c: CumulatorView, chunks: Seq<FrameView>) -> bool {
    forall|k: int| 0 <= k < chunks.len() ==> append_owed(append_all(c, chunks.take(k)), #[trigger] chunks[k])
}

/// Feeding any number of consecutive chunks of bars to a fresh cumulator,
/// each append succeeding, leaves it in the state that feeding all the bars
/// at once does, and its frame is the one-shot cumulation of all the bars.
pub proof fn law_chunks_match_one_shot(tf: TimeFrame, sp: AggSpecView, chunks: Seq<FrameView>)
    requires
        chunks.len() >= 1,
        forall|k: int| 0 <= k < chunks.len() ==> (#[trigger] chunks[k]).wf(),
        total_height(chunks) <= usize::MAX,
        appends_owed(fresh(tf, sp), chunks),
    ensures
        append_all(fresh(tf, sp), chunks) == spec_append(fresh(tf, sp), concat_all(chunks)),
        append_owed(fresh(tf, sp), concat_all(chunks)),
        spec_frame(append_all(fresh(tf, sp), chunks)) == spec_cumulate(concat_all(chunks), tf, sp),
        concat_all(chunks).wf(),
        concat_all(chunks).height() == total_height(chunks),
    decreases chunks.len(),
{
    let e = fresh(tf, sp);
    let n = chunks.len() as int;
    if n == 1 {
        assert(chunks.take(0) =~= Seq::<FrameView>::empty());
        assert(chunks.drop_last() =~= Seq::<FrameView>::empty());
        assert(append_owed(e, chunks[0]));
        assert(total_height(chunks.drop_last()) == 0);
        assert(total_height(chunks) == chunks[0].height());
        crate::one_shot::lemma_one_shot(chunks[0], tf, sp);
    } else {
        let init = chunks.drop_last();
        let b = chunks.last();
        assert forall|k: int| 0 <= k < init.len() implies append_owed(append_all(e, init.take(k)), #[trigger] init[k]) by {
            assert(init.take(k) =~= chunks.take(k));
            assert(init[k] == chunks[k]);
        }
        assert forall|k: int| 0 <= k < init.len() implies (#[trigger] init[k]).wf() by {
            assert(init[k] == chunks[k]);
        }
        assert(total_height(chunks) == total_height(init) + b.height());
        law_chunks_match_one_shot(tf, sp, init);
        let a = concat_all(init);
        assert(concat_all(chunks) == a.concat(b));
        assert(chunks.take(n - 1) =~= init);
        assert(append_owed(append_all(e, chunks.take(n - 1)), chunks[n - 1]));
        let c1 = spec_append(e, a);
        assert(append_owed(c1, b));
        assert(raw_of(e, a) == a);
        let rs = frame_runs(a, tf);
        let o = a.slice(rs.last().0, rs.last().1);
        assert(c1.open == Some(o));
        crate::one_shot::lemma_slice_compatible(a, rs.last().0, rs.last().1);
        crate::one_shot::lemma_compatible_sym(o, a);
        crate::one_shot::lemma_compatible_sym(o, b);
        crate::one_shot::lemma_compatible_trans(a, b, o);
        assert(b.wf());
        law_incremental_matches_one_shot(tf, sp, a, b);
        crate::one_shot::lemma_concat_shape(a, b, b);
    }
}

} // verus!
