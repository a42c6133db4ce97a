//! A frame cumulated live: each new fine bar either updates the forming
//! coarse row of the open period or opens the next period with a new row.

use vstd::prelude::*;

use crate::agg::{AggSpec, AggSpecView};
use crate::cumulate::{
    aggregate_period, append_owed, coarse_rows, cumulable, fits_after, fold_fits, fold_onto, frame_runs,
    opt_view, raw_of, runs_aggregate, spec_aggregate, spec_append, spec_frame, spec_keys, spec_runs,
    Cumulator, CumulatorView,
};
use crate::error::VolasError;
use crate::frame::{Frame, FrameView, IndexKind, IndexKindView};
use crate::one_shot::{
    lemma_aggregate_shape, lemma_compatible_sym, lemma_compatible_trans, lemma_concat_shape, lemma_slice_compatible, spec_cumulate,
};
use crate::time_frame::{spec_unify, tz_ok, TimeFrame, Tz};

verus! {

/// Whether every bar of a period has the period key of its last bar.
pub open spec fn single_run(o: FrameView, tf: TimeFrame) -> bool {
    &&& o.index.kind is Datetime
    &&& forall|i: int|
        0 <= i < o.index.kind->Datetime_0.len() ==> spec_unify(tf, #[trigger] o.index.kind->Datetime_0[i] as int, o.index.kind->Datetime_1)
            == spec_unify(tf, o.index.kind->Datetime_0.last() as int, o.index.kind->Datetime_1)
}

/// The cumulation states a live frame can be in: finished rows of at least
/// one row, an open period of one period key with no missing timestamp, and
/// a cumulated frame that exists.
pub open spec fn live_ok(c: CumulatorView) -> bool {
    &&& c.wf()
    &&& (c.closed matches Some(cl) ==> cl.height() > 0)
    &&& (c.open matches Some(o) ==> cumulable(o) && single_run(o, c.tf))
    &&& spec_frame(c) is Some
}

/// The state after folding the first `n` bars of `fine`, one at a time.
pub open spec fn fold_steps(c: CumulatorView, fine: FrameView, n: nat) -> CumulatorView
    decreases n,
{
    if n == 0 {
        c
    } else {
        spec_append(fold_steps(c, fine, (n - 1) as nat), fine.slice(n - 1, n as int))
    }
}

/// Whether folding one bar into `c` succeeds: its append is owed, and the
/// cumulated frame it leaves exists.
pub open spec fn step_ok(c: CumulatorView, bar: FrameView) -> bool {
    append_owed(c, bar) && spec_frame(spec_append(c, bar)) is Some
}

/// Whether folding each of the first `n` bars of `fine` succeeds.
pub open spec fn steps_ok(c: CumulatorView, fine: FrameView, n: nat) -> bool {
    forall|i: nat| i < n ==> #[trigger] step_ok(fold_steps(c, fine, i), fine.slice(i as int, (i + 1) as int))
}

/// The one-row frame `f` with its index rebased on the zone and name of
/// `o`: what the row becomes once it follows `o`'s rows.
pub open spec fn rebased(f: FrameView, o: FrameView) -> FrameView {
    FrameView {
        names: f.names,
        columns: f.columns,
        index: crate::frame::IndexView {
            kind: IndexKindView::Datetime(f.index.kind->Datetime_0, o.index.kind->Datetime_1),
            name: o.index.name,
        },
    }
}

/// A bar of the open period's key joins the open period.
proof fn lemma_step_same(c: CumulatorView, bar: FrameView)
    requires
        c.open matches Some(o) && cumulable(o) && single_run(o, c.tf) && o.compatible(bar),
        bar.wf(),
        bar.height() == 1,
        bar.index.kind is Datetime,
        spec_unify(c.tf, bar.index.kind->Datetime_0[0] as int, c.open->Some_0.index.kind->Datetime_1) == spec_unify(
            c.tf,
            c.open->Some_0.index.kind->Datetime_0.last() as int,
            c.open->Some_0.index.kind->Datetime_1,
        ),
    ensures
        spec_append(c, bar) == (CumulatorView {
            tf: c.tf,
            spec: c.spec,
            closed: c.closed,
            open: Some(c.open->Some_0.concat(bar)),
        }),
        frame_runs(raw_of(c, bar), c.tf).drop_last().len() == 0,
        single_run(c.open->Some_0.concat(bar), c.tf),
{
    let o = c.open->Some_0;
    let raw = o.concat(bar);
    let ts = o.index.kind->Datetime_0;
    let tz = o.index.kind->Datetime_1;
    let bts = bar.index.kind->Datetime_0;
    assert(raw.index.kind == IndexKindView::Datetime(ts + bts, tz));
    let k = spec_keys(ts + bts, c.tf, tz);
    crate::cumulate::lemma_keys_len(ts + bts, c.tf, tz);
    assert forall|i: int| 0 <= i < k.len() implies #[trigger] k[i] == k[0] by {
        reveal(spec_keys);
        if i < ts.len() {
            assert((ts + bts)[i] == ts[i]);
        } else {
            assert((ts + bts)[i] == bts[0]);
        }
        assert((ts + bts)[0] == ts[0]);
    }
    crate::cumulate_laws::lemma_runs_const(k);
    assert(raw.wf()) by {
        lemma_concat_shape(o, bar, o);
    }
    crate::frame::lemma_slice_full(raw);
    let all = ts + bts;
    assert forall|i: int| 0 <= i < all.len() implies spec_unify(c.tf, #[trigger] all[i] as int, tz) == spec_unify(
        c.tf,
        all.last() as int,
        tz,
    ) by {
        reveal(spec_keys);
        assert(k[i] == k[0]);
        assert(k[all.len() - 1] == k[0]);
    }
}

/// A bar folded into the open period and then re-sent (a bar with the same
/// timestamp, of the same period) counts once: the state shows what folding
/// only the re-sent bar shows, with the same finished rows.
pub proof fn law_resent_bar_counts_once(c: CumulatorView, bar: FrameView, again: FrameView)
    requires
        c.open matches Some(o) && cumulable(o) && single_run(o, c.tf),
        c.open->Some_0.compatible(bar),
        c.open->Some_0.compatible(again),
        cumulable(bar),
        cumulable(again),
        bar.height() == 1,
        again.height() == 1,
        again.index.kind->Datetime_0[0] == bar.index.kind->Datetime_0[0],
        c.open->Some_0.height() + 2 < usize::MAX,
        spec_unify(c.tf, bar.index.kind->Datetime_0[0] as int, c.open->Some_0.index.kind->Datetime_1) == spec_unify(
            c.tf,
            c.open->Some_0.index.kind->Datetime_0.last() as int,
            c.open->Some_0.index.kind->Datetime_1,
        ),
    ensures
        spec_append(spec_append(c, bar), again).closed == spec_append(c, again).closed,
        spec_frame(spec_append(spec_append(c, bar), again)) == spec_frame(spec_append(c, again)),
{
    let o = c.open->Some_0;
    let tz = o.index.kind->Datetime_1;
    lemma_step_same(c, bar);
    let c1 = spec_append(c, bar);
    let ob = o.concat(bar);
    lemma_concat_shape(o, bar, o);
    assert(ob.compatible(again)) by {
        assert forall|j: int| 0 <= j < ob.columns.len() implies #[trigger] ob.columns[j].same_kind(again.columns[j]) by {
            assert(o.columns[j].same_kind(bar.columns[j]));
            assert(o.columns[j].same_kind(again.columns[j]));
        }
    }
    let obts = ob.index.kind->Datetime_0;
    assert(obts == o.index.kind->Datetime_0 + bar.index.kind->Datetime_0);
    assert(obts.last() == bar.index.kind->Datetime_0[0]);
    assert(cumulable(ob)) by {
        assert forall|i: int| 0 <= i < obts.len() implies #[trigger] obts[i] != i64::MIN by {
            if i < o.height() {
                assert(obts[i] == o.index.kind->Datetime_0[i]);
            } else {
                assert(obts[i] == bar.index.kind->Datetime_0[i - o.height()]);
            }
        }
    }
    lemma_step_same(c1, again);
    lemma_step_same(c, again);
    let h = ob.height() as int;
    crate::resend::law_resent_bar_replaces_last(ob, again, c.spec);
    assert(ob.slice(0, h - 1) == o) by {
        crate::frame::lemma_slice_full(o);
        assert(ob.slice(0, h - 1).columns =~= o.columns) by {
            assert forall|j: int| 0 <= j < o.columns.len() implies #[trigger] ob.slice(0, h - 1).columns[j] == o.columns[j] by {
                assert(o.columns[j].len() == h - 1);
                match (o.columns[j], bar.columns[j]) {
                    (crate::frame::ColumnView::I64(a), crate::frame::ColumnView::I64(b)) => assert((a + b).subrange(0, h - 1) =~= a),
                    (crate::frame::ColumnView::Datetime(a), crate::frame::ColumnView::Datetime(b)) => assert((a + b).subrange(0, h - 1) =~= a),
                    (crate::frame::ColumnView::Bool(a), crate::frame::ColumnView::Bool(b)) => assert((a + b).subrange(0, h - 1) =~= a),
                    (crate::frame::ColumnView::Str(a), crate::frame::ColumnView::Str(b)) => assert((a + b).subrange(0, h - 1) =~= a),
                    _ => {},
                }
            }
        }
        assert(ob.slice(0, h - 1).index.kind == o.index.kind) by {
            assert(obts.subrange(0, h - 1) =~= o.index.kind->Datetime_0);
        }
    }
}

/// A bar of another key closes the open period and opens the next one.
proof fn lemma_step_roll(c: CumulatorView, bar: FrameView)
    requires
        c.open matches Some(o) && cumulable(o) && single_run(o, c.tf) && o.compatible(bar),
        bar.wf(),
        bar.height() == 1,
        bar.index.kind is Datetime,
        spec_unify(c.tf, bar.index.kind->Datetime_0[0] as int, c.open->Some_0.index.kind->Datetime_1) != spec_unify(
            c.tf,
            c.open->Some_0.index.kind->Datetime_0.last() as int,
            c.open->Some_0.index.kind->Datetime_1,
        ),
    ensures
        frame_runs(raw_of(c, bar), c.tf).drop_last() == seq![(0int, c.open->Some_0.height() as int)],
        spec_append(c, bar) == (CumulatorView {
            tf: c.tf,
            spec: c.spec,
            closed: fold_onto(c.closed, seq![spec_aggregate(c.open->Some_0, c.spec).unwrap()]),
            open: Some(rebased(bar, c.open->Some_0)),
        }),
        c.open->Some_0.concat(bar).slice(c.open->Some_0.height() as int, (c.open->Some_0.height() + 1) as int) == rebased(
            bar,
            c.open->Some_0,
        ),
{
    let o = c.open->Some_0;
    let raw = o.concat(bar);
    let ts = o.index.kind->Datetime_0;
    let tz = o.index.kind->Datetime_1;
    let bts = bar.index.kind->Datetime_0;
    let h = ts.len() as int;
    assert(raw.index.kind == IndexKindView::Datetime(ts + bts, tz));
    let k = spec_keys(ts + bts, c.tf, tz);
    let k0 = spec_keys(ts, c.tf, tz);
    crate::cumulate::lemma_keys_len(ts + bts, c.tf, tz);
    crate::cumulate::lemma_keys_len(ts, c.tf, tz);
    assert(k.drop_last() =~= k0) by {
        reveal(spec_keys);
        assert((ts + bts).drop_last() =~= ts);
    }
    assert forall|i: int| 0 <= i < k0.len() implies #[trigger] k0[i] == k0[0] by {
        reveal(spec_keys);
    }
    crate::cumulate_laws::lemma_runs_const(k0);
    assert(k[h] != k[h - 1]) by {
        reveal(spec_keys);
        assert((ts + bts)[h] == bts[0]);
        assert((ts + bts)[h - 1] == ts[h - 1]);
    }
    assert(spec_runs(k) == seq![(0int, h), (h, h + 1)]);
    let rs = frame_runs(raw, c.tf);
    assert(rs.drop_last() =~= seq![(0int, h)]);
    assert(raw.wf()) by {
        lemma_concat_shape(o, bar, o);
    }
    crate::cumulate_laws::lemma_frame_prefix(o, bar, 0, h);
    crate::frame::lemma_slice_full(o);
    assert(coarse_rows(raw, rs.drop_last(), c.spec) =~= seq![spec_aggregate(o, c.spec).unwrap()]);
    let last = raw.slice(h, h + 1);
    assert(last.columns =~= bar.columns) by {
        assert forall|j: int| 0 <= j < bar.columns.len() implies #[trigger] last.columns[j] == bar.columns[j] by {
            assert(o.columns[j].len() == h);
            assert(bar.columns[j].len() == 1);
            assert(o.columns[j].same_kind(bar.columns[j]));
            match (o.columns[j], bar.columns[j]) {
                (crate::frame::ColumnView::I64(v), crate::frame::ColumnView::I64(w)) => assert((v + w).subrange(h, h + 1) =~= w),
                (crate::frame::ColumnView::Datetime(v), crate::frame::ColumnView::Datetime(w)) => assert((v + w).subrange(h, h + 1) =~= w),
                (crate::frame::ColumnView::Bool(v), crate::frame::ColumnView::Bool(w)) => assert((v + w).subrange(h, h + 1) =~= w),
                (crate::frame::ColumnView::Str(v), crate::frame::ColumnView::Str(w)) => assert((v + w).subrange(h, h + 1) =~= w),
                _ => {},
            }
        }
    }
    assert((ts + bts).subrange(h, h + 1) =~= bts);
    assert(last == rebased(bar, o));
}

/// The first bar with no open period opens one.
proof fn lemma_step_first(c: CumulatorView, bar: FrameView)
    requires
        c.open is None,
        bar.wf(),
        bar.height() == 1,
        bar.index.kind is Datetime,
    ensures
        spec_append(c, bar) == (CumulatorView { tf: c.tf, spec: c.spec, closed: c.closed, open: Some(bar) }),
        frame_runs(raw_of(c, bar), c.tf).drop_last().len() == 0,
{
    let ts = bar.index.kind->Datetime_0;
    let tz = bar.index.kind->Datetime_1;
    let k = spec_keys(ts, c.tf, tz);
    crate::cumulate::lemma_keys_len(ts, c.tf, tz);
    crate::cumulate_laws::lemma_runs_const(k);
    crate::frame::lemma_slice_full(bar);
}

/// A one-row frame following the empty prefix of another one-row frame of
/// the same shape, zone and index name is itself.
proof fn lemma_empty_prefix(x: FrameView, y: FrameView)
    requires
        x.wf(),
        y.wf(),
        x.compatible(y),
        x.index.name == y.index.name,
        x.index.kind is Datetime,
        y.index.kind is Datetime,
        x.index.kind->Datetime_1 == y.index.kind->Datetime_1,
    ensures
        x.slice(0, 0).concat(y) == y,
{
    let l = x.slice(0, 0).concat(y);
    assert forall|j: int| 0 <= j < y.columns.len() implies #[trigger] l.columns[j] == y.columns[j] by {
        assert(x.columns[j].same_kind(y.columns[j]));
        match (x.columns[j], y.columns[j]) {
            (crate::frame::ColumnView::I64(v), crate::frame::ColumnView::I64(w)) => assert(v.subrange(0, 0) + w =~= w),
            (crate::frame::ColumnView::Datetime(v), crate::frame::ColumnView::Datetime(w)) => assert(v.subrange(0, 0) + w =~= w),
            (crate::frame::ColumnView::Bool(v), crate::frame::ColumnView::Bool(w)) => assert(v.subrange(0, 0) + w =~= w),
            (crate::frame::ColumnView::Str(v), crate::frame::ColumnView::Str(w)) => assert(v.subrange(0, 0) + w =~= w),
            _ => {},
        }
    }
    assert(l.columns =~= y.columns);
    let v = x.index.kind->Datetime_0;
    let w = y.index.kind->Datetime_0;
    assert(v.subrange(0, 0) + w =~= w);
}

/// The cumulated frame of a state with an open period is shaped like that
/// period and has a row for it.
proof fn lemma_frame_shape(c: CumulatorView)
    requires
        c.wf(),
        c.open is Some,
        spec_frame(c) is Some,
    ensures
        spec_frame(c)->Some_0.compatible(c.open->Some_0),
        spec_frame(c)->Some_0.height() > 0,
        spec_aggregate(c.open->Some_0, c.spec) is Some,
        fits_after(c.closed, spec_aggregate(c.open->Some_0, c.spec)->Some_0),
        fold_onto(c.closed, seq![spec_aggregate(c.open->Some_0, c.spec)->Some_0]) == spec_frame(c),
{
    let o = c.open->Some_0;
    let l = spec_aggregate(o, c.spec)->Some_0;
    lemma_aggregate_shape(o, c.spec);
    let rows = seq![l];
    assert(rows.drop_last() =~= Seq::<FrameView>::empty());
    assert(fold_onto(c.closed, rows.drop_last()) == c.closed);
    assert(rows.last() == l);
    crate::one_shot::lemma_compatible_sym(l, o);
    match c.closed {
        Some(cl) => {
            lemma_compatible_trans(cl, o, l);
            lemma_concat_shape(cl, l, o);
        },
        None => {},
    }
}

/// A frame shaped like `o` followed by a one-row frame shaped like `o`
/// stays shaped like `o`; in particular `o` itself followed by a bar.
proof fn lemma_raw_shape(o: FrameView, bar: FrameView)
    requires
        o.wf(),
        bar.wf(),
        o.compatible(bar),
        cumulable(o),
        cumulable(bar),
    ensures
        cumulable(o.concat(bar)),
        o.concat(bar).compatible(o),
        o.concat(bar).height() == o.height() + bar.height(),
{
    lemma_compatible_trans(o, o, bar);
    lemma_concat_shape(o, bar, o);
    let ts = o.index.kind->Datetime_0;
    let bts = bar.index.kind->Datetime_0;
    let all = ts + bts;
    assert forall|i: int| 0 <= i < all.len() implies #[trigger] all[i] != i64::MIN by {
        if i < ts.len() {
            assert(all[i] == ts[i]);
        } else {
            assert(all[i] == bts[i - ts.len()]);
        }
    }
}

/// When a bar joins the open period, the cumulated frame is the old one with
/// its last row replaced by the aggregate of the grown period.
proof fn lemma_same_frame(c: CumulatorView, raw: FrameView, bv: FrameView, agg: FrameView)
    requires
        live_ok(c),
        c.open is Some,
        raw == c.open->Some_0.concat(bv),
        c.open->Some_0.compatible(bv),
        bv.wf(),
        cumulable(bv),
        spec_aggregate(raw, c.spec) == Some(agg),
    ensures
        spec_frame(c)->Some_0.height() > 0,
        spec_frame(c)->Some_0.compatible(agg),
        agg.wf(),
        agg.height() == 1,
        spec_frame(CumulatorView { tf: c.tf, spec: c.spec, closed: c.closed, open: Some(raw) }) == Some(
            spec_frame(c)->Some_0.slice(0, spec_frame(c)->Some_0.height() - 1).concat(agg),
        ),
{
    let ov = c.open->Some_0;
    let inner0 = spec_frame(c)->Some_0;
    lemma_frame_shape(c);
    let l0 = spec_aggregate(ov, c.spec)->Some_0;
    lemma_aggregate_shape(raw, c.spec);
    lemma_aggregate_shape(ov, c.spec);
    crate::idempotence::lemma_aggregate_index(raw, c.spec);
    crate::idempotence::lemma_aggregate_index(ov, c.spec);
    lemma_raw_shape(ov, bv);
    lemma_compatible_trans(agg, ov, raw);
    lemma_compatible_sym(agg, ov);
    lemma_compatible_trans(inner0, agg, ov);
    match c.closed {
        Some(cl) => {
            crate::cumulate_laws::lemma_frame_prefix(cl, l0, 0, cl.height() as int);
            crate::frame::lemma_slice_full(cl);
            lemma_compatible_sym(l0, ov);
            lemma_compatible_trans(cl, ov, l0);
            lemma_compatible_trans(cl, agg, ov);
        },
        None => {
            lemma_empty_prefix(inner0, agg);
        },
    }
}

/// When a bar opens the next period, the cumulated frame gets the aggregate
/// of that period as a new row after the old frame, which becomes the
/// finished rows.
proof fn lemma_roll_frame(c: CumulatorView, bv: FrameView, agg: FrameView)
    requires
        live_ok(c),
        c.open is Some,
        c.open->Some_0.compatible(bv),
        bv.wf(),
        bv.height() == 1,
        cumulable(bv),
        spec_aggregate(rebased(bv, c.open->Some_0), c.spec) == Some(agg),
    ensures
        fold_onto(c.closed, seq![spec_aggregate(c.open->Some_0, c.spec)->Some_0]) == spec_frame(c),
        cumulable(rebased(bv, c.open->Some_0)),
        single_run(rebased(bv, c.open->Some_0), c.tf),
        rebased(bv, c.open->Some_0).height() == 1,
        agg.wf(),
        agg.height() == 1,
        spec_frame(c)->Some_0.height() > 0,
{
    let ov = c.open->Some_0;
    let next = rebased(bv, ov);
    lemma_frame_shape(c);
    assert forall|j: int| 0 <= j < next.columns.len() implies #[trigger] next.columns[j].len() == next.index.kind.len() by {
        assert(bv.columns[j].len() == bv.index.kind.len());
    }
    lemma_aggregate_shape(next, c.spec);
    let ts = next.index.kind->Datetime_0;
    assert(ts.len() == 1);
    assert forall|i: int| 0 <= i < ts.len() implies spec_unify(c.tf, #[trigger] ts[i] as int, next.index.kind->Datetime_1)
        == spec_unify(c.tf, ts.last() as int, next.index.kind->Datetime_1) by {
        assert(i == 0);
    }
}

/// The latest timestamp folded so far: that of the open period's last bar,
/// else the last label of the frame shown when it has datetime labels.
pub open spec fn latest(c: CumulatorView) -> Option<i64> {
    match c.open {
        Some(o) => Some(o.index.kind->Datetime_0.last()),
        None => match spec_frame(c) {
            Some(f) => match f.index.kind {
                IndexKindView::Datetime(ts, _) => if ts.len() > 0 { Some(ts.last()) } else { None },
                _ => None,
            },
            None => None,
        },
    }
}

/// What a fold checks before folding anything: bars with a datetime index
/// in a supported zone, none without a timestamp, and none earlier than the
/// one before it (the first one not earlier than the latest folded).
pub open spec fn fold_checks(c: CumulatorView, fine: FrameView) -> bool {
    &&& fine.index.kind is Datetime
    &&& tz_ok(fine.index.kind->Datetime_1)
    &&& forall|i: int| 0 <= i < fine.height() ==> #[trigger] fine.index.kind->Datetime_0[i] != i64::MIN
    &&& forall|i: int, j: int|
        0 <= i && j == i + 1 && j < fine.height() ==> #[trigger] fine.index.kind->Datetime_0[i]
            <= #[trigger] fine.index.kind->Datetime_0[j]
    &&& (fine.height() > 0 && latest(c) is Some) ==> latest(c)->Some_0 <= fine.index.kind->Datetime_0[0]
}

/// The cumulated frame of a well-formed state is well formed.
proof fn lemma_frame_wf(c: CumulatorView)
    requires
        c.wf(),
        spec_frame(c) is Some,
    ensures
        spec_frame(c)->Some_0.wf(),
{
    match c.open {
        Some(o) => {
            lemma_aggregate_shape(o, c.spec);
            let l = spec_aggregate(o, c.spec)->Some_0;
            match c.closed {
                Some(cl) => {
                    lemma_concat_shape(cl, l, l);
                },
                None => {},
            }
        },
        None => {},
    }
}

/// After an owed append, the open period is a cumulable run of one key.
proof fn lemma_open_after_append(c: CumulatorView, fine: FrameView)
    requires
        append_owed(c, fine),
    ensures
        spec_append(c, fine).open matches Some(o) && cumulable(o) && single_run(o, c.tf),
{
    let raw = raw_of(c, fine);
    crate::cumulate_laws::lemma_frame_runs_shape(raw, c.tf);
    let rs = frame_runs(raw, c.tf);
    let s = rs.last().0;
    let n = raw.height() as int;
    let o = raw.slice(s, n);
    crate::frame::lemma_slice_wf(raw, s, n);
    let ts = raw.index.kind->Datetime_0;
    let tz = raw.index.kind->Datetime_1;
    let sub = ts.subrange(s, n);
    assert(o.index.kind == IndexKindView::Datetime(sub, tz));
    assert forall|i: int| 0 <= i < sub.len() implies #[trigger] sub[i] != i64::MIN by {
        assert(sub[i] == ts[s + i]);
    }
    let k = spec_keys(ts, c.tf, tz);
    crate::cumulate::lemma_keys_len(ts, c.tf, tz);
    crate::cumulate::lemma_runs_shape(k);
    assert forall|i: int| 0 <= i < sub.len() implies spec_unify(c.tf, #[trigger] sub[i] as int, tz) == spec_unify(
        c.tf,
        sub.last() as int,
        tz,
    ) by {
        reveal(spec_keys);
        assert(sub[i] == ts[s + i]);
        assert(sub.last() == ts[n - 1]);
        assert(k[s + i] == k[n - 1]);
    }
}

/// Whether a frame can seed a live cumulation as finished rows: a datetime
/// index with no missing timestamp (NaT) that never goes back in time.
pub open spec fn seedable(f: FrameView) -> bool {
    &&& f.index.kind is Datetime
    &&& forall|i: int| 0 <= i < f.height() ==> #[trigger] f.index.kind->Datetime_0[i] != i64::MIN
    &&& forall|i: int, j: int|
        0 <= i && j == i + 1 && j < f.height() ==> #[trigger] f.index.kind->Datetime_0[i]
            <= #[trigger] f.index.kind->Datetime_0[j]
}

/// A frame cumulated live into a time frame: the finished coarse rows
/// followed by the forming row of the open period, and that period's bars.
pub struct LiveFrame {
    inner: Frame,
    tf: TimeFrame,
    spec: AggSpec,
    open: Option<Frame>,
    closed: Ghost<Option<FrameView>>,
}

impl View for LiveFrame {
    type V = CumulatorView;

    closed spec fn view(&self) -> CumulatorView {
        CumulatorView { tf: self.tf, spec: self.spec@, closed: self.closed@, open: opt_view(self.open) }
    }
}

/// The last timestamp and the zone of a datetime-indexed frame with rows.
fn last_stamp(f: &Frame) -> (r: (i64, Tz))
    requires
        f@.index.kind is Datetime,
        f@.height() > 0,
    ensures
        r == (f@.index.kind->Datetime_0.last(), f@.index.kind->Datetime_1),
{
    match &f.index().kind {
        IndexKind::Datetime(v, tz) => (v[v.len() - 1], *tz),
        _ => (0, Tz::Utc),
    }
}

impl LiveFrame {
    /// The frame is in a state a live cumulation can reach, and holds its
    /// cumulated frame.
    pub closed spec fn wf(&self) -> bool {
        &&& live_ok(self@)
        &&& spec_frame(self@) == Some(self.inner@)
        &&& self.inner@.wf()
    }

    /// The frame shown: the finished rows and the forming row.
    pub closed spec fn shown(&self) -> FrameView {
        self.inner@
    }

    /// Fold a bar when no period is open.
    #[verifier::spinoff_prover]
    fn fold_first(&mut self, bar: Frame) -> (r: Result<(), VolasError>)
        requires
            old(self).wf(),
            old(self).open is None,
            bar@.wf(),
            bar@.height() == 1,
            cumulable(bar@),
        ensures
            final(self).wf(),
            r is Ok <==> step_ok(old(self)@, bar@),
            r is Ok ==> final(self)@ == spec_append(old(self)@, bar@),
            r is Err ==> final(self)@ == old(self)@,
    {
        let ghost c = self@;
        let ghost bv = bar@;
        proof {
            lemma_step_first(c, bv);
            assert(raw_of(c, bv) == bv);
            assert(append_owed(c, bv));
        }
        let agg = match aggregate_period(&bar, &self.spec) {
            Ok(a) => a,
            Err(e) => {
                return Err(e);
            },
        };
        if self.inner.height() == 0 {
            self.inner = agg;
        } else {
            match self.inner.append(&agg) {
                Ok(()) => {},
                Err(e) => {
                    return Err(e);
                },
            }
        }
        self.open = Some(bar);
        Ok(())
    }

    /// Fold a bar of the open period's key: `o` is the open period of state
    /// `c` (taken out of `self`) already followed by the bar.
    #[verifier::spinoff_prover]
    fn fold_same(
        &mut self,
        o: Frame,
        h: usize,
        Ghost(c): Ghost<CumulatorView>,
        Ghost(bv): Ghost<FrameView>,
    ) -> (r: Result<(), VolasError>)
        requires
            c.tf == old(self).tf,
            c.spec == old(self).spec@,
            c.closed == old(self).closed@,
            old(self).open is None,
            live_ok(c),
            c.open is Some,
            spec_frame(c) == Some(old(self).inner@),
            old(self).inner@.wf(),
            o@ == c.open->Some_0.concat(bv),
            o@.slice(0, h as int) == c.open->Some_0,
            h == c.open->Some_0.height(),
            c.open->Some_0.compatible(bv),
            o@.wf(),
            bv.wf(),
            cumulable(bv),
            cumulable(o@),
            single_run(o@, c.tf),
            append_owed(c, bv),
            spec_append(c, bv) == (CumulatorView { tf: c.tf, spec: c.spec, closed: c.closed, open: Some(o@) }),
        ensures
            final(self).wf(),
            r is Ok <==> step_ok(c, bv),
            r is Ok ==> final(self)@ == spec_append(c, bv),
            r is Err ==> final(self)@ == c,
    {
        let agg = match aggregate_period(&o, &self.spec) {
            Ok(a) => a,
            Err(e) => {
                self.open = Some(o.slice(0, h));
                return Err(e);
            },
        };
        proof {
            lemma_same_frame(c, o@, bv, agg@);
        }
        self.inner.replace_last(&agg);
        self.open = Some(o);
        Ok(())
    }

    /// Fold a bar of another key: `o` is the open period of state `c` (taken
    /// out of `self`) already followed by the bar, which opens the next
    /// period.
    #[verifier::spinoff_prover]
    fn fold_roll(
        &mut self,
        o: Frame,
        h: usize,
        Ghost(c): Ghost<CumulatorView>,
        Ghost(bv): Ghost<FrameView>,
    ) -> (r: Result<(), VolasError>)
        requires
            c.tf == old(self).tf,
            c.spec == old(self).spec@,
            c.closed == old(self).closed@,
            old(self).open is None,
            live_ok(c),
            c.open is Some,
            spec_frame(c) == Some(old(self).inner@),
            old(self).inner@.wf(),
            o@ == c.open->Some_0.concat(bv),
            o@.slice(0, h as int) == c.open->Some_0,
            o@.slice(h as int, h + 1) == rebased(bv, c.open->Some_0),
            h == c.open->Some_0.height(),
            h + 1 == o@.height(),
            c.open->Some_0.compatible(bv),
            o@.wf(),
            bv.wf(),
            bv.height() == 1,
            cumulable(bv),
            append_owed(c, bv),
            spec_append(c, bv) == (CumulatorView {
                tf: c.tf,
                spec: c.spec,
                closed: fold_onto(c.closed, seq![spec_aggregate(c.open->Some_0, c.spec).unwrap()]),
                open: Some(rebased(bv, c.open->Some_0)),
            }),
        ensures
            final(self).wf(),
            r is Ok <==> step_ok(c, bv),
            r is Ok ==> final(self)@ == spec_append(c, bv),
            r is Err ==> final(self)@ == c,
    {
        let ghost inner0 = self.inner@;
        let next = o.slice(h, h + 1);
        let agg = match aggregate_period(&next, &self.spec) {
            Ok(a) => a,
            Err(e) => {
                self.open = Some(o.slice(0, h));
                return Err(e);
            },
        };
        proof {
            lemma_roll_frame(c, bv, agg@);
        }
        match self.inner.append(&agg) {
            Ok(()) => {},
            Err(e) => {
                self.open = Some(o.slice(0, h));
                return Err(e);
            },
        }
        self.closed = Ghost(Some(inner0));
        self.open = Some(next);
        Ok(())
    }

    /// Fold one bar: update the forming row when the bar is in the open
    /// period (in that period's zone), else finish that row and open the next
    /// period with a new row. On failure nothing changes.
    fn fold_bar(&mut self, bar: Frame) -> (r: Result<(), VolasError>)
        requires
            old(self).wf(),
            bar@.wf(),
            bar@.height() == 1,
            cumulable(bar@),
        ensures
            final(self).wf(),
            r is Ok <==> step_ok(old(self)@, bar@),
            r is Ok ==> final(self)@ == spec_append(old(self)@, bar@),
            r is Err ==> final(self)@ == old(self)@,
    {
        let ghost c = self@;
        let ghost bv = bar@;
        if self.open.is_none() {
            return self.fold_first(bar);
        }
        let mut o = self.open.take().unwrap();
        let ghost ov = o@;
        proof {
            lemma_frame_shape(c);
        }
        let (last_ts, tz) = last_stamp(&o);
        let (bar_ts, _) = last_stamp(&bar);
        let same = self.tf.unify_tz(bar_ts, tz) == self.tf.unify_tz(last_ts, tz);
        let h = o.height();
        match o.append(&bar) {
            Ok(()) => {},
            Err(e) => {
                self.open = Some(o);
                return Err(e);
            },
        }
        proof {
            lemma_raw_shape(ov, bv);
            assert(raw_of(c, bv) == o@);
            crate::cumulate_laws::lemma_frame_prefix(ov, bv, 0, h as int);
            crate::frame::lemma_slice_full(ov);
            assert(bv.index.kind->Datetime_0[0] == bv.index.kind->Datetime_0.last());
        }
        if same {
            proof {
                lemma_step_same(c, bv);
                assert(append_owed(c, bv));
            }
            self.fold_same(o, h, Ghost(c), Ghost(bv))
        } else {
            proof {
                lemma_step_roll(c, bv);
                let rows = coarse_rows(raw_of(c, bv), frame_runs(raw_of(c, bv), c.tf).drop_last(), c.spec);
                assert(rows =~= seq![spec_aggregate(ov, c.spec).unwrap()]) by {
                    crate::frame::lemma_slice_full(ov);
                }
                assert(rows.take(0) =~= Seq::<FrameView>::empty());
                assert(fold_fits(c.closed, rows));
                assert(runs_aggregate(raw_of(c, bv), frame_runs(raw_of(c, bv), c.tf).drop_last(), c.spec));
                assert(append_owed(c, bv));
            }
            self.fold_roll(o, h, Ghost(c), Ghost(bv))
        }
    }

    /// Fold new fine bars (with a datetime index) into the live cumulation, in
    /// order: each bar of the open period's key updates the forming row, and
    /// each bar of another key finishes it and opens the next period. Nothing
    /// is folded unless every bar has a timestamp, in a supported zone, and no
    /// bar is earlier than the one before it.
    pub fn fold_append(&mut self, fine: &Frame) -> (r: Result<(), VolasError>)
        requires
            old(self).wf(),
            fine@.wf(),
        ensures
            final(self).wf(),
            !fold_checks(old(self)@, fine@) ==> (r matches Err(e) && e is Value) && final(self)@ == old(self)@,
            fold_checks(old(self)@, fine@) ==> (r is Ok <==> steps_ok(old(self)@, fine@, fine@.height())),
            r is Ok ==> final(self)@ == fold_steps(old(self)@, fine@, fine@.height()),
            r is Err ==> exists|i: nat| i <= fine@.height() && final(self)@ == fold_steps(old(self)@, fine@, i),
    {
        let ghost c0 = self@;
        let ghost fv = fine@;
        proof {
            assert(fold_steps(c0, fv, 0) == c0);
        }
        let (ts, tz) = match &fine.index().kind {
            IndexKind::Datetime(v, tz) => (v, *tz),
            _ => {
                return Err(VolasError::Value("folding into a cumulated frame needs bars with a DatetimeIndex".to_owned()));
            },
        };
        let off_ok = match tz {
            Tz::Fixed(o) => -86400 < o && o < 86400,
            _ => true,
        };
        if !off_ok {
            return Err(VolasError::Value("the index time zone offset must be less than a day".to_owned()));
        }
        let n = fine.height();
        assert(ts@.len() == n);
        let mut prev: Option<i64> = match &self.open {
            Some(o) => {
                let (t, _) = last_stamp(o);
                Some(t)
            },
            None => match &self.inner.index().kind {
                IndexKind::Datetime(v, _) => if v.len() > 0 { Some(v[v.len() - 1]) } else { None },
                _ => None,
            },
        };
        assert(prev == latest(c0));
        let mut i: usize = 0;
        while i < n
            invariant
                self.wf(),
                self@ == c0,
                c0 == old(self)@,
                fold_steps(c0, fv, 0) == c0,
                fv == fine@,
                !(tz is Fixed) || (-86400 < tz->Fixed_0 < 86400),
                n == ts@.len(),
                fv.index.kind == IndexKindView::Datetime(ts@, tz),
                i <= n,
                forall|k: int| 0 <= k < i ==> #[trigger] ts@[k] != i64::MIN,
                forall|k: int, j: int| 0 <= k && j == k + 1 && j < i ==> #[trigger] ts@[k] <= #[trigger] ts@[j],
                i == 0 ==> prev == latest(c0),
                i > 0 ==> prev == Some(ts@[i - 1]),
                (i > 0 && latest(c0) is Some) ==> latest(c0)->Some_0 <= ts@[0],
            decreases n - i,
        {
            let t = ts[i];
            if t == i64::MIN {
                assert(!fold_checks(c0, fv)) by {
                    assert(fv.index.kind->Datetime_0[i as int] == i64::MIN);
                }
                return Err(VolasError::Value("cannot fold a bar without a timestamp".to_owned()));
            }
            match prev {
                Some(p) => {
                    if t < p {
                        assert(!fold_checks(c0, fv)) by {
                            if i > 0 {
                                assert(fv.index.kind->Datetime_0[i - 1] > fv.index.kind->Datetime_0[i as int]);
                            }
                        }
                        return Err(VolasError::Value("cannot fold a bar earlier than the one before it".to_owned()));
                    }
                },
                None => {},
            }
            prev = Some(t);
            i = i + 1;
        }
        assert(fold_checks(c0, fv));
        let mut i: usize = 0;
        while i < n
            invariant
                fold_checks(c0, fv),
                c0 == old(self)@,
                fv == fine@,
                fine@.wf(),
                n == fine@.height(),
                i <= n,
                self.wf(),
                self@ == fold_steps(c0, fv, i as nat),
                steps_ok(c0, fv, i as nat),
            decreases n - i,
        {
            let bar = fine.slice(i, i + 1);
            proof {
                let bts = fv.index.kind->Datetime_0.subrange(i as int, i + 1);
                assert(bar@.index.kind == IndexKindView::Datetime(bts, fv.index.kind->Datetime_1));
                assert(bts[0] == fv.index.kind->Datetime_0[i as int]);
                assert(cumulable(bar@));
            }
            match self.fold_bar(bar) {
                Ok(()) => {},
                Err(e) => {
                    proof {
                        assert(!step_ok(fold_steps(c0, fv, i as nat), fv.slice(i as int, i + 1)));
                        assert(!steps_ok(c0, fv, n as nat));
                    }
                    return Err(e);
                },
            }
            proof {
                assert(fold_steps(c0, fv, (i + 1) as nat) == spec_append(fold_steps(c0, fv, i as nat), fv.slice(i as int, i + 1)));
                assert forall|k: nat| k < (i + 1) as nat implies #[trigger] step_ok(fold_steps(c0, fv, k), fv.slice(k as int, (k + 1) as int)) by {
                    if k < i as nat {
                        assert(step_ok(fold_steps(c0, fv, k), fv.slice(k as int, (k + 1) as int)));
                    }
                }
            }
            i = i + 1;
        }
        Ok(())
    }

    /// A live cumulation into `tf` with nothing folded yet: it shows the frame
    /// with no columns and no rows.
    pub fn new(tf: TimeFrame, spec: AggSpec) -> (r: LiveFrame)
        ensures
            r.wf(),
            r@ == (CumulatorView { tf, spec: spec@, closed: None, open: None }),
    {
        let inner = Frame::empty();
        let r = LiveFrame { inner, tf, spec, open: None, closed: Ghost(None) };
        assert(spec_frame(r@) == Some(inner@));
        r
    }

    /// A live cumulation into `tf` seeded with the rows of `df`, taken as
    /// finished bars of that frame (not aggregated again): no period is open,
    /// so the next bar folded opens one. `df` needs a datetime index without a
    /// missing timestamp that never goes back in time; otherwise a value error.
    /// A seed without rows starts as `new` does, showing the frame with no
    /// columns until a bar folds.
    pub fn seed(df: Frame, tf: TimeFrame, spec: AggSpec) -> (r: Result<LiveFrame, VolasError>)
        requires
            df@.wf(),
        ensures
            r is Ok <==> seedable(df@),
            match r {
                Ok(l) => {
                    &&& l.wf()
                    &&& df@.height() > 0 ==> l@ == (CumulatorView { tf, spec: spec@, closed: Some(df@), open: None })
                        && l.shown() == df@
                    &&& df@.height() == 0 ==> l@ == (CumulatorView { tf, spec: spec@, closed: None, open: None })
                },
                Err(e) => e is Value,
            },
    {
        let ghost dv = df@;
        match &df.index().kind {
            IndexKind::Datetime(v, _) => {
                assert(dv.index.kind->Datetime_0 == v@);
                let mut i: usize = 0;
                while i < v.len()
                    invariant
                        dv == df@,
                        dv.index.kind is Datetime,
                        dv.index.kind->Datetime_0 == v@,
                        i <= v@.len(),
                        forall|t: int| 0 <= t < i ==> #[trigger] v@[t] != i64::MIN,
                    decreases v.len() - i,
                {
                    if v[i] == i64::MIN {
                        assert(dv.index.kind->Datetime_0[i as int] == i64::MIN);
                        return Err(
                            VolasError::Value(
                                "time_frame requires a DatetimeIndex without NaT; drop or fill the missing index timestamps first".to_owned(),
                            ),
                        );
                    }
                    i = i + 1;
                }
                let mut k: usize = 1;
                while k < v.len()
                    invariant
                        dv == df@,
                        dv.index.kind is Datetime,
                        dv.index.kind->Datetime_0 == v@,
                        1 <= k,
                        k <= v@.len() || v@.len() == 0,
                        forall|a: int, b: int| 0 <= a && b == a + 1 && b < k && b < v@.len() ==> #[trigger] v@[a] <= #[trigger] v@[b],
                    decreases v.len() - k,
                {
                    if v[k] < v[k - 1] {
                        assert(dv.index.kind->Datetime_0[k - 1] > dv.index.kind->Datetime_0[k as int]);
                        return Err(
                            VolasError::Value(
                                "time_frame requires a monotonic (time-sorted) DatetimeIndex; sort the bars by time first".to_owned(),
                            ),
                        );
                    }
                    k = k + 1;
                }
            },
            _ => {
                return Err(
                    VolasError::Value(
                        "time_frame requires a DatetimeIndex (build one with to_datetime(df[col]) then df.set_index(col))".to_owned(),
                    ),
                );
            },
        }
        if df.height() == 0 {
            return Ok(LiveFrame::new(tf, spec));
        }
        let r = LiveFrame { inner: df, tf, spec, open: None, closed: Ghost(Some(dv)) };
        assert(spec_frame(r@) == Some(r.inner@));
        Ok(r)
    }

    /// The one-shot cumulation of `df` into `tf` periods, kept live so that
    /// further bars fold into its open period.
    pub fn cumulate(df: &Frame, tf: TimeFrame, spec: &AggSpec) -> (r: Result<LiveFrame, VolasError>)
        requires
            df@.wf(),
        ensures
            match r {
                Ok(l) => {
                    &&& l.wf()
                    &&& l@ == spec_append(CumulatorView { tf, spec: spec@, closed: None, open: None }, df@)
                    &&& spec_cumulate(df@, tf, spec@) == Some(l.shown())
                },
                Err(_) => spec_cumulate(df@, tf, spec@) is None,
            },
    {
        let h = df.height();
        let ghost c0 = CumulatorView { tf, spec: spec@, closed: None, open: None };
        proof {
            crate::one_shot::lemma_one_shot(df@, tf, spec@);
        }
        let mut cum = Cumulator::new(tf, spec.clone());
        match cum.append(df) {
            Ok(()) => {},
            Err(e) => {
                proof {
                    if cumulable(df@) {
                        crate::cumulate_laws::lemma_frame_runs_shape(df@, tf);
                        let rs = frame_runs(df@, tf);
                        if runs_aggregate(df@, rs, spec@) {
                            assert(runs_aggregate(df@, rs.drop_last(), spec@)) by {
                                assert forall|i: int| 0 <= i < rs.drop_last().len() implies (#[trigger] spec_aggregate(
                                    df@.slice(rs.drop_last()[i].0, rs.drop_last()[i].1),
                                    spec@,
                                )) is Some by {
                                    assert(rs.drop_last()[i] == rs[i]);
                                }
                            }
                        }
                    }
                }
                return Err(e);
            },
        }
        let inner = match cum.frame() {
            Ok(f) => f,
            Err(e) => {
                return Err(e);
            },
        };
        let open = cum.open_clone();
        proof {
            assert(raw_of(c0, df@) == df@);
            lemma_open_after_append(c0, df@);
            crate::one_shot::lemma_frame_runs_len(df@, tf);
            let rs = frame_runs(df@, tf);
            crate::one_shot::lemma_fold_rows(df@, rs.drop_last(), spec@);
            lemma_frame_wf(cum@);
        }
        let r = LiveFrame { inner, tf, spec: spec.clone(), open, closed: Ghost(cum@.closed) };
        assert(r@ == cum@);
        Ok(r)
    }

    /// The frame shown: the finished rows followed by the forming row.
    pub fn frame(&self) -> (r: &Frame)
        requires
            self.wf(),
        ensures
            Some(r@) == spec_frame(self@),
            r@ == self.shown(),
    {
        &self.inner
    }

    /// The time frame cumulated into.
    pub fn time_frame(&self) -> (r: TimeFrame)
        ensures
            r == self@.tf,
    {
        self.tf
    }

    /// A copy of the live cumulation.
    pub fn duplicate(&self) -> (r: LiveFrame)
        requires
            self.wf(),
        ensures
            r.wf(),
            r@ == self@,
            r.shown() == self.shown(),
    {
        let open = match &self.open {
            Some(o) => Some(o.duplicate()),
            None => None,
        };
        LiveFrame { inner: self.inner.duplicate(), tf: self.tf, spec: self.spec.clone(), open, closed: Ghost(self.closed@) }
    }

    /// Cumulate the shown frame again into `target` periods with `spec`: into
    /// its own time frame this is a copy (keeping its aggregators); into a
    /// frame it cannot be coarsened to, a value error.
    pub fn recumulate(&self, target: TimeFrame, spec: &AggSpec) -> (r: Result<LiveFrame, VolasError>)
        requires
            self.wf(),
        ensures
            target == self@.tf ==> (r matches Ok(l) && l.wf() && l@ == self@ && l.shown() == self.shown()),
            target != self@.tf && !crate::time_frame::spec_can_coarsen(self@.tf, target) ==> (r matches Err(e)
                && e is Value),
            target != self@.tf && crate::time_frame::spec_can_coarsen(self@.tf, target) ==> match r {
                Ok(l) => {
                    &&& l.wf()
                    &&& l@ == spec_append(CumulatorView { tf: target, spec: spec@, closed: None, open: None }, self.shown())
                    &&& spec_cumulate(self.shown(), target, spec@) == Some(l.shown())
                },
                Err(_) => spec_cumulate(self.shown(), target, spec@) is None,
            },
    {
        if target == self.tf {
            return Ok(self.duplicate());
        }
        if !self.tf.can_coarsen(target) {
            let mut m = "cannot cumulate ".to_owned();
            m.append(self.tf.label());
            m.append(" -> ");
            m.append(target.label());
            m.append(": the target is not a whole multiple of the source frame");
            return Err(VolasError::Value(m));
        }
        LiveFrame::cumulate(&self.inner, target, spec)
    }
}

/// Concatenation of compatible frames is associative.
proof fn lemma_concat_assoc(x: FrameView, y: FrameView, z: FrameView)
    requires
        x.compatible(y),
        y.compatible(z),
    ensures
        x.concat(y).concat(z) == x.concat(y.concat(z)),
{
    let l = x.concat(y).concat(z);
    let r = x.concat(y.concat(z));
    assert forall|j: int| 0 <= j < x.columns.len() implies #[trigger] l.columns[j] == r.columns[j] by {
        assert(x.columns[j].same_kind(y.columns[j]));
        assert(y.columns[j].same_kind(z.columns[j]));
        match (x.columns[j], y.columns[j], z.columns[j]) {
            (crate::frame::ColumnView::I64(a), crate::frame::ColumnView::I64(b), crate::frame::ColumnView::I64(c)) => assert((a + b) + c =~= a + (b + c)),
            (crate::frame::ColumnView::Datetime(a), crate::frame::ColumnView::Datetime(b), crate::frame::ColumnView::Datetime(c)) => assert((a + b) + c =~= a + (b + c)),
            (crate::frame::ColumnView::Bool(a), crate::frame::ColumnView::Bool(b), crate::frame::ColumnView::Bool(c)) => assert((a + b) + c =~= a + (b + c)),
            (crate::frame::ColumnView::Str(a), crate::frame::ColumnView::Str(b), crate::frame::ColumnView::Str(c)) => assert((a + b) + c =~= a + (b + c)),
            _ => {},
        }
    }
    assert(l.columns =~= r.columns);
    match (x.index.kind, y.index.kind, z.index.kind) {
        (IndexKindView::Range(a), IndexKindView::Range(b), IndexKindView::Range(c)) => {},
        (IndexKindView::Int64(a), IndexKindView::Int64(b), IndexKindView::Int64(c)) => assert((a + b) + c =~= a + (b + c)),
        (IndexKindView::Datetime(a, _), IndexKindView::Datetime(b, _), IndexKindView::Datetime(c, _)) => assert((a + b) + c =~= a + (b + c)),
        (IndexKindView::Str(a), IndexKindView::Str(b), IndexKindView::Str(c)) => assert((a + b) + c =~= a + (b + c)),
        _ => {},
    }
}

/// Rows `a..b` followed by rows `b..c` are rows `a..c`.
proof fn lemma_slice_split(f: FrameView, a: int, b: int, c: int)
    requires
        f.wf(),
        0 <= a <= b <= c <= f.height(),
    ensures
        f.slice(a, b).concat(f.slice(b, c)) == f.slice(a, c),
{
    let l = f.slice(a, b).concat(f.slice(b, c));
    let r = f.slice(a, c);
    assert forall|j: int| 0 <= j < f.columns.len() implies #[trigger] l.columns[j] == r.columns[j] by {
        assert(f.columns[j].len() == f.height());
        match f.columns[j] {
            crate::frame::ColumnView::I64(v) => assert(v.subrange(a, b) + v.subrange(b, c) =~= v.subrange(a, c)),
            crate::frame::ColumnView::Datetime(v) => assert(v.subrange(a, b) + v.subrange(b, c) =~= v.subrange(a, c)),
            crate::frame::ColumnView::Bool(v) => assert(v.subrange(a, b) + v.subrange(b, c) =~= v.subrange(a, c)),
            crate::frame::ColumnView::Str(v) => assert(v.subrange(a, b) + v.subrange(b, c) =~= v.subrange(a, c)),
        }
    }
    assert(l.columns =~= r.columns);
    match f.index.kind {
        IndexKindView::Range(n) => {},
        IndexKindView::Int64(v) => assert(v.subrange(a, b) + v.subrange(b, c) =~= v.subrange(a, c)),
        IndexKindView::Datetime(v, _) => assert(v.subrange(a, b) + v.subrange(b, c) =~= v.subrange(a, c)),
        IndexKindView::Str(v) => assert(v.subrange(a, b) + v.subrange(b, c) =~= v.subrange(a, c)),
    }
}

/// A frame followed by no rows of a compatible frame is itself.
proof fn lemma_concat_none(x: FrameView, f: FrameView)
    requires
        x.wf(),
        x.compatible(f),
    ensures
        x.concat(f.slice(0, 0)) == x,
{
    let l = x.concat(f.slice(0, 0));
    assert forall|j: int| 0 <= j < x.columns.len() implies #[trigger] l.columns[j] == x.columns[j] by {
        assert(x.columns[j].same_kind(f.columns[j]));
        match (x.columns[j], f.columns[j]) {
            (crate::frame::ColumnView::I64(a), crate::frame::ColumnView::I64(b)) => assert(a + b.subrange(0, 0) =~= a),
            (crate::frame::ColumnView::Datetime(a), crate::frame::ColumnView::Datetime(b)) => assert(a + b.subrange(0, 0) =~= a),
            (crate::frame::ColumnView::Bool(a), crate::frame::ColumnView::Bool(b)) => assert(a + b.subrange(0, 0) =~= a),
            (crate::frame::ColumnView::Str(a), crate::frame::ColumnView::Str(b)) => assert(a + b.subrange(0, 0) =~= a),
            _ => {},
        }
    }
    assert(l.columns =~= x.columns);
    match (x.index.kind, f.index.kind) {
        (IndexKindView::Range(a), IndexKindView::Range(b)) => {},
        (IndexKindView::Int64(a), IndexKindView::Int64(b)) => assert(a + b.subrange(0, 0) =~= a),
        (IndexKindView::Datetime(a, _), IndexKindView::Datetime(b, _)) => assert(a + b.subrange(0, 0) =~= a),
        (IndexKindView::Str(a), IndexKindView::Str(b)) => assert(a + b.subrange(0, 0) =~= a),
        _ => {},
    }
}

/// Folding the first `n` bars one at a time into the live cumulation of
/// `df` is appending `df` followed by them to a fresh cumulator at once.
proof fn lemma_fold_prefix(tf: TimeFrame, sp: AggSpecView, df: FrameView, fine: FrameView, n: nat)
    requires
        df.wf(),
        fine.wf(),
        df.compatible(fine),
        df.height() + fine.height() <= usize::MAX,
        n <= fine.height(),
        append_owed(CumulatorView { tf, spec: sp, closed: None, open: None }, df),
        steps_ok(spec_append(CumulatorView { tf, spec: sp, closed: None, open: None }, df), fine, n),
    ensures
        fold_steps(spec_append(CumulatorView { tf, spec: sp, closed: None, open: None }, df), fine, n)
            == spec_append(CumulatorView { tf, spec: sp, closed: None, open: None }, df.concat(fine.slice(0, n as int))),
        append_owed(CumulatorView { tf, spec: sp, closed: None, open: None }, df.concat(fine.slice(0, n as int))),
        df.concat(fine.slice(0, n as int)).wf(),
        df.concat(fine.slice(0, n as int)).height() == df.height() + n,
    decreases n,
{
    let e = CumulatorView { tf, spec: sp, closed: None, open: None };
    let s0 = spec_append(e, df);
    crate::frame::lemma_slice_wf(fine, 0, n as int);
    lemma_slice_compatible(fine, 0, n as int);
    lemma_compatible_trans(df, fine.slice(0, n as int), fine);
    lemma_concat_shape(df, fine.slice(0, n as int), df);
    if n == 0 {
        lemma_concat_none(df, fine);
    } else {
        let m = (n - 1) as nat;
        assert forall|i: nat| i < m implies #[trigger] step_ok(fold_steps(s0, fine, i), fine.slice(i as int, (i + 1) as int)) by {
            assert(step_ok(fold_steps(s0, fine, i), fine.slice(i as int, (i + 1) as int)));
        }
        lemma_fold_prefix(tf, sp, df, fine, m);
        let a = df.concat(fine.slice(0, m as int));
        let b = fine.slice(m as int, (m + 1) as int);
        assert((m + 1) as int == n as int);
        assert(step_ok(fold_steps(s0, fine, m), b));
        crate::frame::lemma_slice_wf(fine, m as int, n as int);
        crate::cumulate_laws::law_incremental_matches_one_shot(tf, sp, a, b);
        lemma_slice_compatible(fine, 0, m as int);
        lemma_slice_compatible(fine, m as int, n as int);
        lemma_compatible_trans(fine.slice(0, m as int), fine.slice(m as int, n as int), fine);
        lemma_compatible_trans(df, fine.slice(0, m as int), fine);
        lemma_concat_assoc(df, fine.slice(0, m as int), b);
        lemma_slice_split(fine, 0, m as int, n as int);
    }
}

/// Folding bars one at a time into the live cumulation of `df` shows the
/// one-shot cumulation of `df` followed by those bars: the live fold and
/// one-shot cumulation agree.
pub proof fn law_live_matches_one_shot(tf: TimeFrame, sp: AggSpecView, df: FrameView, fine: FrameView)
    requires
        df.wf(),
        fine.wf(),
        df.compatible(fine),
        df.height() + fine.height() <= usize::MAX,
        append_owed(CumulatorView { tf, spec: sp, closed: None, open: None }, df),
        steps_ok(spec_append(CumulatorView { tf, spec: sp, closed: None, open: None }, df), fine, fine.height()),
    ensures
        spec_frame(fold_steps(spec_append(CumulatorView { tf, spec: sp, closed: None, open: None }, df), fine, fine.height()))
            == spec_cumulate(df.concat(fine), tf, sp),
{
    lemma_fold_prefix(tf, sp, df, fine, fine.height());
    crate::frame::lemma_slice_full(fine);
    crate::one_shot::lemma_one_shot(df.concat(fine), tf, sp);
}

} // verus!
