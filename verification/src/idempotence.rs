//! Cumulating a cumulated frame again into the same time frame gives it back.

use vstd::prelude::*;

use crate::agg::{spec_agg_for, spec_reduce, Agg, AggSpecView};
use crate::cumulate::{
    agg_columns, coarse_rows, cumulable, fold_onto, frame_runs, lemma_dedup_ok, lemma_runs_shape,
    runs_aggregate, spec_aggregate, spec_dedup, spec_keys, spec_runs,
};
use crate::cumulate_laws::lemma_frame_prefix;
use crate::frame::{ColumnView, FrameView, IndexKindView, IndexView};
use crate::one_shot::{
    lemma_aggregate_shape, lemma_compatible_trans, lemma_concat_shape, lemma_slice_compatible, spec_cumulate,
};
use crate::time_frame::{TimeFrame, Tz};

verus! {

/// The runs tile the keys: the first starts at 0, each begins where the one
/// before it ends, every key of a run equals its first, and neighbouring
/// runs have different keys.
pub proof fn lemma_runs_tile(k: Seq<int>)
    requires
        k.len() > 0,
    ensures
        spec_runs(k)[0].0 == 0,
        forall|i: int, j: int|
            0 <= i && j == i + 1 && j < spec_runs(k).len() ==> #[trigger] spec_runs(k)[i].1 == #[trigger] spec_runs(k)[j].0,
        forall|i: int, t: int|
            0 <= i < spec_runs(k).len() && spec_runs(k)[i].0 <= t < spec_runs(k)[i].1 ==> #[trigger] k[t] == k[#[trigger] spec_runs(k)[i].0],
        forall|i: int, j: int|
            0 <= i && j == i + 1 && j < spec_runs(k).len() ==> k[#[trigger] spec_runs(k)[i].0] != k[#[trigger] spec_runs(k)[j].0],
    decreases k.len(),
{
    lemma_runs_shape(k);
    if k.len() > 1 {
        let p = k.drop_last();
        let n = k.len() as int;
        lemma_runs_tile(p);
        lemma_runs_shape(p);
        let r0 = spec_runs(p);
        let r = spec_runs(k);
        assert(k[n - 2] == k[r0.last().0]) by {
            assert(p[n - 2] == p[r0[r0.len() - 1].0]);
        }
        if k[n - 1] == k[n - 2] {
            assert(r == r0.update(r0.len() - 1, (r0.last().0, n)));
            assert forall|i: int, j: int| 0 <= i && j == i + 1 && j < r.len() implies #[trigger] r[i].1 == #[trigger] r[j].0 by {
                assert(r0[i].1 == r0[j].0);
            }
            assert forall|i: int, t: int| 0 <= i < r.len() && r[i].0 <= t < r[i].1 implies #[trigger] k[t] == k[#[trigger] r[i].0] by {
                if t < n - 1 {
                    if i < r.len() - 1 {
                        assert(p[t] == p[r0[i].0]);
                    } else {
                        assert(p[t] == p[r0[r0.len() - 1].0]);
                    }
                }
            }
            assert forall|i: int, j: int| 0 <= i && j == i + 1 && j < r.len() implies k[#[trigger] r[i].0] != k[#[trigger] r[j].0] by {
                assert(p[r0[i].0] != p[r0[j].0]);
            }
        } else {
            assert(r == r0.push((n - 1, n)));
            assert forall|i: int, j: int| 0 <= i && j == i + 1 && j < r.len() implies #[trigger] r[i].1 == #[trigger] r[j].0 by {
                if j < r0.len() {
                    assert(r0[i].1 == r0[j].0);
                }
            }
            assert forall|i: int, t: int| 0 <= i < r.len() && r[i].0 <= t < r[i].1 implies #[trigger] k[t] == k[#[trigger] r[i].0] by {
                if i < r0.len() {
                    assert(p[t] == p[r0[i].0]);
                }
            }
            assert forall|i: int, j: int| 0 <= i && j == i + 1 && j < r.len() implies k[#[trigger] r[i].0] != k[#[trigger] r[j].0] by {
                if j < r0.len() {
                    assert(p[r0[i].0] != p[r0[j].0]);
                }
            }
        }
    }
}

/// When neighbouring keys all differ, every row is a run of its own.
pub proof fn lemma_runs_singletons(k: Seq<int>)
    requires
        forall|i: int, j: int| 0 <= i && j == i + 1 && j < k.len() ==> #[trigger] k[i] != #[trigger] k[j],
    ensures
        spec_runs(k) == Seq::new(k.len(), |i: int| (i, i + 1)),
    decreases k.len(),
{
    if k.len() > 1 {
        let p = k.drop_last();
        assert forall|i: int, j: int| 0 <= i && j == i + 1 && j < p.len() implies #[trigger] p[i] != #[trigger] p[j] by {
            assert(k[i] != k[j]);
        }
        lemma_runs_singletons(p);
        let n = k.len() as int;
        assert(k[n - 2] != k[n - 1]);
        assert(spec_runs(k) =~= Seq::new(k.len(), |i: int| (i, i + 1)));
    } else if k.len() == 1 {
        assert(spec_runs(k) =~= Seq::new(k.len(), |i: int| (i, i + 1)));
    } else {
        assert(spec_runs(k) =~= Seq::new(k.len(), |i: int| (i, i + 1)));
    }
}

/// A one-row frame shaped like `proto`, with a datetime index in `tz` named
/// `nm`.
pub open spec fn row_like(r: FrameView, proto: FrameView, tz: Tz, nm: Option<Seq<char>>) -> bool {
    &&& r.wf()
    &&& r.height() == 1
    &&& r.compatible(proto)
    &&& r.index.name == nm
    &&& r.index.kind is Datetime
    &&& r.index.kind->Datetime_1 == tz
}

/// The rows of `y` that follow those of `x` are `y` itself.
proof fn lemma_frame_last(x: FrameView, y: FrameView)
    requires
        x.wf(),
        y.wf(),
        x.compatible(y),
        x.index.name == y.index.name,
        x.index.kind is Datetime,
        y.index.kind is Datetime,
        x.index.kind->Datetime_1 == y.index.kind->Datetime_1,
    ensures
        x.concat(y).slice(x.height() as int, (x.height() + y.height()) as int) == y,
{
    let h = x.height() as int;
    let m = y.height() as int;
    let l = x.concat(y).slice(h, h + m);
    assert forall|j: int| 0 <= j < y.columns.len() implies #[trigger] l.columns[j] == y.columns[j] by {
        assert(x.columns[j].len() == h);
        assert(y.columns[j].len() == m);
        assert(x.columns[j].same_kind(y.columns[j]));
        match (x.columns[j], y.columns[j]) {
            (ColumnView::I64(v), ColumnView::I64(w)) => assert((v + w).subrange(h, h + m) =~= w),
            (ColumnView::Datetime(v), ColumnView::Datetime(w)) => assert((v + w).subrange(h, h + m) =~= w),
            (ColumnView::Bool(v), ColumnView::Bool(w)) => assert((v + w).subrange(h, h + m) =~= w),
            (ColumnView::Str(v), ColumnView::Str(w)) => assert((v + w).subrange(h, h + m) =~= w),
            _ => {},
        }
    }
    assert(l.columns =~= y.columns);
    let v = x.index.kind->Datetime_0;
    let w = y.index.kind->Datetime_0;
    assert((v + w).subrange(h, h + m) =~= w);
}

/// Folding one-row frames of one shape, zone and index name gives a frame
/// whose row `i` is the `i`-th of them.
pub proof fn lemma_fold_slices(rows: Seq<FrameView>, proto: FrameView, tz: Tz, nm: Option<Seq<char>>)
    requires
        rows.len() > 0,
        forall|i: int| 0 <= i < rows.len() ==> row_like(#[trigger] rows[i], proto, tz, nm),
    ensures
        fold_onto(None, rows) is Some,
        fold_onto(None, rows)->Some_0.wf(),
        fold_onto(None, rows)->Some_0.height() == rows.len(),
        fold_onto(None, rows)->Some_0.compatible(proto),
        fold_onto(None, rows)->Some_0.index.name == nm,
        fold_onto(None, rows)->Some_0.index.kind is Datetime,
        fold_onto(None, rows)->Some_0.index.kind->Datetime_1 == tz,
        forall|i: int| 0 <= i < rows.len() ==> #[trigger] fold_onto(None, rows)->Some_0.slice(i, i + 1) == rows[i],
    decreases rows.len(),
{
    if rows.len() == 1 {
        assert(rows.drop_last().len() == 0);
        assert(row_like(rows[0], proto, tz, nm));
        crate::frame::lemma_slice_full(rows[0]);
    } else {
        let p = rows.drop_last();
        assert forall|i: int| 0 <= i < p.len() implies row_like(#[trigger] p[i], proto, tz, nm) by {
            assert(p[i] == rows[i]);
        }
        lemma_fold_slices(p, proto, tz, nm);
        let f0 = fold_onto(None, p)->Some_0;
        let r = rows.last();
        assert(row_like(rows[rows.len() - 1], proto, tz, nm));
        lemma_compatible_trans(f0, r, proto);
        lemma_concat_shape(f0, r, proto);
        let f = f0.concat(r);
        assert(fold_onto(None, rows) == Some(f));
        assert forall|i: int| 0 <= i < rows.len() implies #[trigger] f.slice(i, i + 1) == rows[i] by {
            if i < p.len() {
                lemma_frame_prefix(f0, r, i, i + 1);
                assert(rows[i] == p[i]);
                assert(f0.slice(i, i + 1) == p[i]);
            } else {
                lemma_frame_last(f0, r);
            }
        }
    }
}

/// Reducing the one value an aggregator made gives it again.
proof fn lemma_reduce_again(a: Agg, col: ColumnView, kept: Seq<usize>)
    requires
        spec_reduce(a, col, kept) is Some,
    ensures
        spec_reduce(a, spec_reduce(a, col, kept)->Some_0, seq![0usize]) == spec_reduce(a, col, kept),
{
    let c = spec_reduce(a, col, kept)->Some_0;
    let z = seq![0usize];
    match a {
        Agg::First | Agg::Last => {
            match c {
                ColumnView::I64(v) => assert(z.map_values(|p: usize| v[p as int]) =~= v),
                ColumnView::Datetime(v) => assert(z.map_values(|p: usize| v[p as int]) =~= v),
                ColumnView::Bool(v) => assert(z.map_values(|p: usize| v[p as int]) =~= v),
                ColumnView::Str(v) => assert(z.map_values(|p: usize| v[p as int]) =~= v),
            }
        },
        _ => {
            match c {
                ColumnView::I64(v) => {
                    let one = z.map_values(|p: usize| v[p as int]);
                    assert(one =~= v);
                    assert(one.drop_last() =~= Seq::<i64>::empty());
                    assert(crate::agg::seq_sum(one.drop_last()) == 0);
                    assert(crate::agg::seq_sum(one) == v[0]);
                    assert(crate::agg::seq_max(one) == v[0]);
                    assert(crate::agg::seq_min(one) == v[0]);
                },
                ColumnView::Datetime(v) => {
                    let one = z.map_values(|p: usize| v[p as int]);
                    assert(one =~= v);
                    assert(one.drop_last() =~= Seq::<i64>::empty());
                    assert(crate::agg::seq_sum(one.drop_last()) == 0);
                    assert(crate::agg::seq_sum(one) == v[0]);
                    assert(crate::agg::seq_max(one) == v[0]);
                    assert(crate::agg::seq_min(one) == v[0]);
                },
                _ => {},
            }
        },
    }
}

/// What a period's aggregate is labelled with: the period's first kept
/// timestamp, in the period's zone, under the period's index name.
pub proof fn lemma_aggregate_index(p: FrameView, sp: AggSpecView)
    requires
        spec_aggregate(p, sp) is Some,
    ensures
        p.index.kind is Datetime,
        spec_aggregate(p, sp)->Some_0.index == (IndexView {
            kind: IndexKindView::Datetime(
                seq![p.index.kind->Datetime_0[spec_dedup(p.index.kind->Datetime_0)[0] as int]],
                p.index.kind->Datetime_1,
            ),
            name: p.index.name,
        }),
        spec_aggregate(p, sp)->Some_0.names == p.names,
{
    reveal(spec_aggregate);
}

/// Aggregating a period's aggregate again gives it back.
proof fn lemma_aggregate_again(p: FrameView, sp: AggSpecView)
    requires
        spec_aggregate(p, sp) is Some,
    ensures
        spec_aggregate(spec_aggregate(p, sp)->Some_0, sp) == spec_aggregate(p, sp),
{
    reveal(spec_aggregate);
    let r = spec_aggregate(p, sp)->Some_0;
    let ts = p.index.kind->Datetime_0;
    let kept = spec_dedup(ts);
    let cs = agg_columns(p, sp, kept);
    let t1 = r.index.kind->Datetime_0;
    assert(t1.len() == 1);
    assert(spec_dedup(t1) == seq![0usize]);
    let cs2 = agg_columns(r, sp, seq![0usize]);
    assert forall|j: int| 0 <= j < cs2.len() implies #[trigger] cs2[j] == Some(r.columns[j]) by {
        assert(cs[j] is Some);
        assert(r.columns[j] == cs[j]->Some_0);
        lemma_reduce_again(spec_agg_for(sp, p.names[j]), p.columns[j], kept);
    }
    assert(cs2.map_values(|c: Option<ColumnView>| c.unwrap()) =~= r.columns);
    assert(seq![t1[spec_dedup(t1)[0] as int]] =~= t1);
}

/// The coarse rows of a cumulable frame are one-row frames shaped like it,
/// labelled in its zone under its index name.
proof fn lemma_rows_like(df: FrameView, tf: TimeFrame, sp: AggSpecView)
    requires
        cumulable(df),
        runs_aggregate(df, frame_runs(df, tf), sp),
    ensures
        forall|i: int| 0 <= i < frame_runs(df, tf).len() ==> row_like(
            #[trigger] coarse_rows(df, frame_runs(df, tf), sp)[i],
            df,
            df.index.kind->Datetime_1,
            df.index.name,
        ),
{
    let rs = frame_runs(df, tf);
    let rows = coarse_rows(df, rs, sp);
    assert forall|i: int| 0 <= i < rs.len() implies row_like(#[trigger] rows[i], df, df.index.kind->Datetime_1, df.index.name) by {
        let piece = df.slice(rs[i].0, rs[i].1);
        assert(spec_aggregate(piece, sp) is Some);
        lemma_aggregate_shape(piece, sp);
        lemma_aggregate_index(piece, sp);
        lemma_slice_compatible(df, rs[i].0, rs[i].1);
        lemma_compatible_trans(rows[i], df, piece);
    }
}

/// Row `i` of the cumulated frame is labelled with a timestamp of run `i`:
/// one with the run's period key, and never missing.
proof fn lemma_stamps(df: FrameView, tf: TimeFrame, sp: AggSpecView, f: FrameView)
    requires
        cumulable(df),
        df.height() <= usize::MAX,
        runs_aggregate(df, frame_runs(df, tf), sp),
        f.index.kind is Datetime,
        f.index.kind->Datetime_0.len() == frame_runs(df, tf).len(),
        forall|i: int| 0 <= i < frame_runs(df, tf).len() ==> #[trigger] f.slice(i, i + 1) == coarse_rows(df, frame_runs(df, tf), sp)[i],
    ensures
        forall|i: int| 0 <= i < frame_runs(df, tf).len() ==> crate::time_frame::spec_unify(
            tf,
            #[trigger] f.index.kind->Datetime_0[i] as int,
            df.index.kind->Datetime_1,
        ) == spec_keys(df.index.kind->Datetime_0, tf, df.index.kind->Datetime_1)[frame_runs(df, tf)[i].0]
            && f.index.kind->Datetime_0[i] != i64::MIN,
{
    let ts = df.index.kind->Datetime_0;
    let tz = df.index.kind->Datetime_1;
    let k = spec_keys(ts, tf, tz);
    let rs = frame_runs(df, tf);
    crate::cumulate::lemma_keys_len(ts, tf, tz);
    lemma_runs_shape(k);
    lemma_runs_tile(k);
    let rows = coarse_rows(df, rs, sp);
    let t2 = f.index.kind->Datetime_0;
    assert forall|i: int| 0 <= i < rs.len() implies crate::time_frame::spec_unify(tf, #[trigger] t2[i] as int, tz) == k[rs[i].0]
        && t2[i] != i64::MIN by {
        let piece = df.slice(rs[i].0, rs[i].1);
        let sub = ts.subrange(rs[i].0, rs[i].1);
        assert(piece.index.kind == IndexKindView::Datetime(sub, tz));
        assert(spec_aggregate(piece, sp) is Some);
        lemma_aggregate_index(piece, sp);
        lemma_dedup_ok(sub);
        let kept = spec_dedup(sub);
        assert(f.slice(i, i + 1) == rows[i]);
        assert(t2.subrange(i, i + 1)[0] == t2[i]);
        assert(t2[i] == ts[rs[i].0 + kept[0]]);
        assert(rs[i].0 <= rs[i].0 + kept[0] < rs[i].1);
        assert(k[rs[i].0 + kept[0]] == k[rs[i].0]);
        reveal(spec_keys);
    }
}

/// The keys of the cumulated frame's timestamps differ from row to row, so
/// each of its rows is a period of its own.
proof fn lemma_result_runs(df: FrameView, tf: TimeFrame, sp: AggSpecView, f: FrameView)
    requires
        cumulable(df),
        f.index.kind is Datetime,
        f.index.kind->Datetime_1 == df.index.kind->Datetime_1,
        f.index.kind->Datetime_0.len() == frame_runs(df, tf).len(),
        forall|i: int| 0 <= i < frame_runs(df, tf).len() ==> crate::time_frame::spec_unify(
            tf,
            #[trigger] f.index.kind->Datetime_0[i] as int,
            df.index.kind->Datetime_1,
        ) == spec_keys(df.index.kind->Datetime_0, tf, df.index.kind->Datetime_1)[frame_runs(df, tf)[i].0],
    ensures
        frame_runs(f, tf) == Seq::new(frame_runs(df, tf).len(), |i: int| (i, i + 1)),
{
    let ts = df.index.kind->Datetime_0;
    let tz = df.index.kind->Datetime_1;
    let k = spec_keys(ts, tf, tz);
    let rs = frame_runs(df, tf);
    crate::cumulate::lemma_keys_len(ts, tf, tz);
    lemma_runs_tile(k);
    let t2 = f.index.kind->Datetime_0;
    let k2 = spec_keys(t2, tf, tz);
    crate::cumulate::lemma_keys_len(t2, tf, tz);
    assert forall|i: int| 0 <= i < k2.len() implies #[trigger] k2[i] == k[rs[i].0] by {
        reveal(spec_keys);
        assert(crate::time_frame::spec_unify(tf, t2[i] as int, tz) == k[rs[i].0]);
    }
    assert forall|i: int, j: int| 0 <= i && j == i + 1 && j < k2.len() implies #[trigger] k2[i] != #[trigger] k2[j] by {
        assert(k[rs[i].0] != k[rs[j].0]);
    }
    lemma_runs_singletons(k2);
}

/// Cumulating an already cumulated frame again into the same time frame with
/// the same aggregators gives it back unchanged: cumulation is idempotent.
pub proof fn law_cumulate_idempotent(df: FrameView, tf: TimeFrame, sp: AggSpecView)
    requires
        df.wf(),
        df.height() <= usize::MAX,
        spec_cumulate(df, tf, sp) is Some,
    ensures
        spec_cumulate(spec_cumulate(df, tf, sp)->Some_0, tf, sp) == spec_cumulate(df, tf, sp),
{
    let tz = df.index.kind->Datetime_1;
    let rs = frame_runs(df, tf);
    let rows = coarse_rows(df, rs, sp);
    crate::cumulate_laws::lemma_frame_runs_shape(df, tf);
    lemma_rows_like(df, tf, sp);
    lemma_fold_slices(rows, df, tz, df.index.name);
    let f = fold_onto(None, rows)->Some_0;
    assert(spec_cumulate(df, tf, sp) == Some(f));
    lemma_stamps(df, tf, sp, f);
    lemma_result_runs(df, tf, sp, f);
    let t2 = f.index.kind->Datetime_0;
    let rs2 = frame_runs(f, tf);
    assert(cumulable(f)) by {
        assert forall|i: int| 0 <= i < t2.len() implies #[trigger] t2[i] != i64::MIN by {
            assert(t2[i] != i64::MIN);
        }
    }
    assert forall|i: int| 0 <= i < rs2.len() implies #[trigger] spec_aggregate(f.slice(rs2[i].0, rs2[i].1), sp) == Some(rows[i]) by {
        let piece = df.slice(rs[i].0, rs[i].1);
        assert(spec_aggregate(piece, sp) is Some);
        lemma_aggregate_again(piece, sp);
        assert(f.slice(i, i + 1) == rows[i]);
    }
    assert(runs_aggregate(f, rs2, sp)) by {
        assert forall|i: int| 0 <= i < rs2.len() implies (#[trigger] spec_aggregate(f.slice(rs2[i].0, rs2[i].1), sp)) is Some by {
            assert(spec_aggregate(f.slice(rs2[i].0, rs2[i].1), sp) == Some(rows[i]));
        }
    }
    assert(coarse_rows(f, rs2, sp) =~= rows);
}

} // verus!
