//! Cumulation: group fine bars into coarser periods and aggregate each.

use vstd::prelude::*;

use crate::agg::{spec_agg_for, spec_reduce, AggSpec, AggSpecView};
use crate::error::VolasError;
use crate::frame::{
    clone_texts, opt_text, texts, ColumnView, Column, Frame, FrameView, Index, IndexKind,
    IndexKindView, IndexView,
};
use crate::one_shot::spec_cumulate;
use crate::time_frame::{spec_unify, tz_ok, TimeFrame, Tz};

verus! {

/// The period keys of a run of timestamps.
#[verifier::opaque]
pub open spec fn spec_keys(ts: Seq<i64>, tf: TimeFrame, tz: Tz) -> Seq<int> {
    ts.map_values(|t: i64| spec_unify(tf, t as int, tz))
}

pub proof fn lemma_keys_concat(a: Seq<i64>, b: Seq<i64>, tf: TimeFrame, tz: Tz)
    ensures
        spec_keys(a + b, tf, tz) == spec_keys(a, tf, tz) + spec_keys(b, tf, tz),
        spec_keys(a, tf, tz).len() == a.len(),
{
    reveal(spec_keys);
    assert(spec_keys(a + b, tf, tz) =~= spec_keys(a, tf, tz) + spec_keys(b, tf, tz));
}

pub proof fn lemma_keys_len(a: Seq<i64>, tf: TimeFrame, tz: Tz)
    ensures
        spec_keys(a, tf, tz).len() == a.len(),
{
    reveal(spec_keys);
}

pub proof fn lemma_keys_subrange(a: Seq<i64>, i: int, j: int, tf: TimeFrame, tz: Tz)
    requires
        0 <= i <= j <= a.len(),
    ensures
        spec_keys(a.subrange(i, j), tf, tz) == spec_keys(a, tf, tz).subrange(i, j),
{
    reveal(spec_keys);
    assert(spec_keys(a.subrange(i, j), tf, tz) =~= spec_keys(a, tf, tz).subrange(i, j));
}

/// The maximal `[start, end)` runs of equal consecutive keys, in order.
pub open spec fn spec_runs(k: Seq<int>) -> Seq<(int, int)>
    decreases k.len(),
{
    if k.len() == 0 {
        seq![]
    } else if k.len() == 1 {
        seq![(0int, 1int)]
    } else {
        let r = spec_runs(k.drop_last());
        let n = k.len() as int;
        if k[n - 1] == k[n - 2] {
            r.update(r.len() - 1, (r.last().0, n))
        } else {
            r.push((n - 1, n))
        }
    }
}

pub open spec fn run_views(r: Seq<(usize, usize)>) -> Seq<(int, int)> {
    r.map_values(|p: (usize, usize)| (p.0 as int, p.1 as int))
}

/// The positions kept when consecutive rows share a timestamp: the last of
/// each such group.
pub open spec fn spec_dedup(ts: Seq<i64>) -> Seq<usize>
    decreases ts.len(),
{
    if ts.len() == 0 {
        seq![]
    } else if ts.len() == 1 {
        seq![0usize]
    } else {
        let n = ts.len() as int;
        let p = spec_dedup(ts.drop_last());
        (if ts[n - 1] == ts[n - 2] { p.drop_last() } else { p }).push((n - 1) as usize)
    }
}

/// The kept positions are increasing, end at the last row, and each one is
/// the last of its group of equal timestamps.
pub open spec fn dedup_ok(ts: Seq<i64>, kept: Seq<usize>) -> bool {
    &&& kept.len() > 0
    &&& kept.last() == ts.len() - 1
    &&& forall|j: int| 0 <= j < kept.len() ==> #[trigger] kept[j] < ts.len()
}

pub proof fn lemma_dedup_ok(ts: Seq<i64>)
    requires
        0 < ts.len() <= usize::MAX,
    ensures
        dedup_ok(ts, spec_dedup(ts)),
    decreases ts.len(),
{
    if ts.len() > 1 {
        lemma_dedup_ok(ts.drop_last());
        let n = ts.len() as int;
        let p = spec_dedup(ts.drop_last());
        let q = if ts[n - 1] == ts[n - 2] { p.drop_last() } else { p };
        assert forall|j: int| 0 <= j < q.len() implies #[trigger] q[j] < ts.len() by {
            assert(p[j] < ts.drop_last().len());
        }
        let r = spec_dedup(ts);
        assert(r == q.push((n - 1) as usize));
        assert forall|j: int| 0 <= j < r.len() implies #[trigger] r[j] < ts.len() by {
            if j < q.len() {
                assert(r[j] == q[j]);
            }
        }
    }
}

/// Split timestamps into the maximal runs of equal period key, bucketing in
/// `tz`'s wall clock.
pub fn group_runs(ts: &Vec<i64>, tf: TimeFrame, tz: Tz) -> (r: Vec<(usize, usize)>)
    requires
        ts.len() > 0,
        tz_ok(tz),
    ensures
        run_views(r@) == spec_runs(spec_keys(ts@, tf, tz)),
{
    let ghost k = spec_keys(ts@, tf, tz);
    proof {
        reveal(spec_keys);
    }
    let mut runs: Vec<(usize, usize)> = Vec::new();
    let mut start: usize = 0;
    let mut key = tf.unify_tz(ts[0], tz);
    let mut i: usize = 1;
    proof {
        assert(k.take(1).len() == 1);
        assert(run_views(runs@).push((start as int, 1int)) =~= spec_runs(k.take(1)));
    }
    while i < ts.len()
        invariant
            k == spec_keys(ts@, tf, tz),
            tz_ok(tz),
            1 <= i <= ts.len(),
            start < i,
            key == k[i - 1],
            run_views(runs@).push((start as int, i as int)) == spec_runs(k.take(i as int)),
        decreases ts.len() - i,
    {
        let kk = tf.unify_tz(ts[i], tz);
        proof {
            reveal(spec_keys);
        }
        assert(k.take(i + 1).drop_last() =~= k.take(i as int));
        let ghost prev = run_views(runs@);
        if kk != key {
            let ghost old_start = start;
            runs.push((start, i));
            assert(run_views(runs@) =~= prev.push((old_start as int, i as int)));
            start = i;
            key = kk;
        }
        assert(run_views(runs@).push((start as int, (i + 1) as int)) =~= spec_runs(k.take(i + 1)));
        i = i + 1;
    }
    runs.push((start, i));
    assert(k.take(ts.len() as int) =~= k);
    assert(run_views(runs@) =~= spec_runs(k));
    runs
}

/// Positions to keep when consecutive same-timestamp rows are deduped (keep
/// the last of each group: a re-sent tick updates rather than accumulates).
pub fn dedup_keep_last(ts: &Vec<i64>) -> (r: Vec<usize>)
    ensures
        r@ == spec_dedup(ts@),
{
    let mut out: Vec<usize> = Vec::new();
    if ts.len() == 0 {
        return out;
    }
    out.push(0);
    let mut i: usize = 1;
    assert(ts@.take(1).len() == 1);
    assert(out@ =~= spec_dedup(ts@.take(1)));
    while i < ts.len()
        invariant
            1 <= i <= ts.len(),
            out@ == spec_dedup(ts@.take(i as int)),
            out.len() > 0,
            out.len() <= i,
        decreases ts.len() - i,
    {
        assert(ts@.take(i + 1).drop_last() =~= ts@.take(i as int));
        if ts[i] == ts[i - 1] {
            out.pop();
        }
        out.push(i);
        i = i + 1;
    }
    assert(ts@.take(ts.len() as int) =~= ts@);
    out
}


/// Each column of a period reduced by the aggregator its name is assigned.
pub open spec fn agg_columns(p: FrameView, sp: AggSpecView, kept: Seq<usize>) -> Seq<Option<ColumnView>> {
    Seq::new(p.columns.len(), |j: int| spec_reduce(spec_agg_for(sp, p.names[j]), p.columns[j], kept))
}

/// One period's bars aggregated into a single coarse row, labelled with the
/// period's first kept timestamp; `None` when the index is not a datetime
/// index or a column cannot be reduced.
#[verifier::opaque]
pub open spec fn spec_aggregate(p: FrameView, sp: AggSpecView) -> Option<FrameView> {
    match p.index.kind {
        IndexKindView::Datetime(ts, tz) => {
            let kept = spec_dedup(ts);
            let cs = agg_columns(p, sp, kept);
            if forall|j: int| 0 <= j < cs.len() ==> (#[trigger] cs[j]) is Some {
                Some(
                    FrameView {
                        names: p.names,
                        columns: cs.map_values(|c: Option<ColumnView>| c.unwrap()),
                        index: IndexView {
                            kind: IndexKindView::Datetime(seq![ts[kept[0] as int]], tz),
                            name: p.index.name,
                        },
                    },
                )
            } else {
                None
            }
        },
        _ => None,
    }
}

fn clone_name(n: &Option<String>) -> (r: Option<String>)
    ensures
        opt_text(r) == opt_text(*n),
{
    match n {
        Some(s) => Some(s.clone()),
        None => None,
    }
}

/// Aggregate one period's raw bars into a single coarse row (a 1-row frame)
/// whose index label is the period's first kept timestamp.
pub fn aggregate_period(period: &Frame, spec: &AggSpec) -> (r: Result<Frame, VolasError>)
    requires
        period@.wf(),
        period@.height() > 0,
    ensures
        match r {
            Ok(f) => spec_aggregate(period@, spec@) == Some(f@) && f@.wf() && f@.height() == 1,
            Err(e) => {
                &&& spec_aggregate(period@, spec@) is None
                &&& !(period@.index.kind is Datetime) ==> e is Value
                &&& e is Value || e is DType
            },
        },
{
    proof {
        reveal(spec_aggregate);
    }
    let ix = period.index();
    let (ts, tz) = match &ix.kind {
        IndexKind::Datetime(v, tz) => (v, *tz),
        _ => {
            return Err(VolasError::Value("cumulation period must have a DatetimeIndex".to_owned()));
        },
    };
    assert(ix@.kind == IndexKindView::Datetime(ts@, tz));
    assert(ts@.len() == period@.height());
    let nts = ts.len();
    assert(nts == ts@.len());
    let kept = dedup_keep_last(ts);
    proof {
        lemma_dedup_ok(ts@);
    }
    let start_ns = ts[kept[0]];
    let names = clone_texts(period.names());
    let ghost cs = agg_columns(period@, spec@, kept@);
    let mut columns: Vec<Column> = Vec::new();
    let mut j: usize = 0;
    while j < names.len()
        invariant
            period@.wf(),
            period@.index.kind == IndexKindView::Datetime(ts@, tz),
            texts(names@) == period@.names,
            kept@ == spec_dedup(ts@),
            dedup_ok(ts@, kept@),
            cs == agg_columns(period@, spec@, kept@),
            j <= names.len(),
            columns.len() == j,
            forall|k: int| 0 <= k < j ==> cs[k] == Some(#[trigger] columns@[k]@),
            forall|k: int| 0 <= k < j ==> (#[trigger] columns@[k]@).len() == 1,
        decreases names.len() - j,
    {
        assert(texts(names@)[j as int] == names@[j as int]@);
        let agg = spec.agg_for(names[j].as_str());
        let all = period.columns();
        let col = &all[j];
        assert(crate::frame::column_views(all@)[j as int] == col@);
        assert(col@.len() == ts@.len());
        let c = match agg.reduce(col, &kept) {
            Ok(c) => c,
            Err(e) => {
                assert(cs[j as int] is None);
                proof {
                    reveal(spec_aggregate);
                }
                return Err(e);
            },
        };
        proof {
            let cv = col@;
            match cv {
                ColumnView::I64(v) => {},
                ColumnView::Datetime(v) => {},
                ColumnView::Bool(v) => {},
                ColumnView::Str(v) => {},
            }
        }
        columns.push(c);
        j = j + 1;
    }
    proof {
        assert(cs.len() == names.len());
        assert forall|k: int| 0 <= k < cs.len() implies (#[trigger] cs[k]) is Some by {
            assert(cs[k] == Some(columns@[k]@));
        }
    }
    let mut one: Vec<i64> = Vec::new();
    one.push(start_ns);
    let index = Index::datetime(one, tz).with_name(clone_name(&period.index().name));
    let r = Frame::new(names, columns, Some(index));
    match r {
        Ok(f) => {
            assert(crate::frame::column_views(columns@) =~= cs.map_values(|c: Option<ColumnView>| c.unwrap()));
            proof {
                reveal(spec_aggregate);
            }
            Ok(f)
        },
        Err(e) => Err(e),
    }
}


/// Every run is a non-empty range of rows, the runs end at the last row, and
/// the keys of the last run all equal the last key.
pub proof fn lemma_runs_shape(k: Seq<int>)
    requires
        k.len() > 0,
    ensures
        spec_runs(k).len() > 0,
        spec_runs(k).last().1 == k.len(),
        forall|i: int| 0 <= i < spec_runs(k).len() ==> 0 <= (#[trigger] spec_runs(k)[i]).0 < spec_runs(k)[i].1 <= k.len(),
        forall|t: int| spec_runs(k).last().0 <= t < k.len() ==> #[trigger] k[t] == k[k.len() - 1],
        forall|i: int| 0 <= i < spec_runs(k).len() - 1 ==> (#[trigger] spec_runs(k)[i]).1 <= spec_runs(k).last().0,
    decreases k.len(),
{
    if k.len() > 1 {
        let p = k.drop_last();
        lemma_runs_shape(p);
        let r = spec_runs(p);
        let n = k.len() as int;
        let rs = spec_runs(k);
        if k[n - 1] == k[n - 2] {
            assert forall|i: int| 0 <= i < rs.len() implies 0 <= (#[trigger] rs[i]).0 < rs[i].1 <= k.len() by {
                if i < rs.len() - 1 {
                    assert(rs[i] == r[i]);
                }
            }
            assert forall|i: int| 0 <= i < rs.len() - 1 implies (#[trigger] rs[i]).1 <= rs.last().0 by {
                assert(rs[i] == r[i]);
            }
            assert forall|t: int| rs.last().0 <= t < k.len() implies #[trigger] k[t] == k[k.len() - 1] by {
                if t < n - 1 {
                    assert(p[t] == p[p.len() - 1]);
                }
            }
        } else {
            assert forall|i: int| 0 <= i < rs.len() implies 0 <= (#[trigger] rs[i]).0 < rs[i].1 <= k.len() by {
                if i < rs.len() - 1 {
                    assert(rs[i] == r[i]);
                }
            }
            assert forall|i: int| 0 <= i < rs.len() - 1 implies (#[trigger] rs[i]).1 <= rs.last().0 by {
                assert(rs[i] == r[i]);
            }
        }
    }
}


/// The runs of equal period key of a frame with a datetime index.
pub open spec fn frame_runs(f: FrameView, tf: TimeFrame) -> Seq<(int, int)> {
    match f.index.kind {
        IndexKindView::Datetime(ts, tz) => spec_runs(spec_keys(ts, tf, tz)),
        _ => seq![],
    }
}

/// The coarse rows the given runs of `f` aggregate to.
pub open spec fn coarse_rows(f: FrameView, runs: Seq<(int, int)>, sp: AggSpecView) -> Seq<FrameView> {
    runs.map_values(|r: (int, int)| spec_aggregate(f.slice(r.0, r.1), sp).unwrap())
}

/// Whether every one of the given runs of `f` aggregates.
pub open spec fn runs_aggregate(f: FrameView, runs: Seq<(int, int)>, sp: AggSpecView) -> bool {
    forall|i: int| 0 <= i < runs.len() ==> (#[trigger] spec_aggregate(f.slice(runs[i].0, runs[i].1), sp)) is Some
}

/// `init` followed by the rows of each frame in `rows`, in order.
pub open spec fn fold_onto(init: Option<FrameView>, rows: Seq<FrameView>) -> Option<FrameView>
    decreases rows.len(),
{
    if rows.len() == 0 {
        init
    } else {
        match fold_onto(init, rows.drop_last()) {
            None => Some(rows.last()),
            Some(f) => Some(f.concat(rows.last())),
        }
    }
}

/// Whether each of `rows` can follow the frame folded before it: same column
/// names, dtypes and index kind, and a length that fits.
pub open spec fn fold_fits(init: Option<FrameView>, rows: Seq<FrameView>) -> bool {
    forall|i: int| 0 <= i < rows.len() ==> fits_after(#[trigger] fold_onto(init, rows.take(i)), rows[i])
}

/// Whether `row` can follow `acc` (anything can follow nothing).
pub open spec fn fits_after(acc: Option<FrameView>, row: FrameView) -> bool {
    match acc {
        Some(f) => f.compatible(row) && f.height() + row.height() <= usize::MAX,
        None => true,
    }
}

/// A datetime-indexed frame with at least one row, no missing timestamp and a
/// supported zone.
pub open spec fn cumulable(f: FrameView) -> bool {
    &&& f.wf()
    &&& f.height() > 0
    &&& match f.index.kind {
        IndexKindView::Datetime(ts, tz) => tz_ok(tz) && forall|i: int| 0 <= i < ts.len() ==> #[trigger] ts[i] != i64::MIN,
        _ => false,
    }
}

/// Whether some timestamp is missing (NaT, stored as `i64::MIN`).
fn has_nat(ts: &Vec<i64>) -> (r: bool)
    ensures
        r == exists|i: int| 0 <= i < ts.len() && ts@[i] == i64::MIN,
{
    let mut i: usize = 0;
    while i < ts.len()
        invariant
            i <= ts.len(),
            forall|t: int| 0 <= t < i ==> #[trigger] ts@[t] != i64::MIN,
        decreases ts.len() - i,
    {
        if ts[i] == i64::MIN {
            return true;
        }
        i = i + 1;
    }
    false
}

/// The contents of a [`Cumulator`].
pub struct CumulatorView {
    pub tf: TimeFrame,
    pub spec: AggSpecView,
    pub closed: Option<FrameView>,
    pub open: Option<FrameView>,
}

impl CumulatorView {
    pub open spec fn wf(self) -> bool {
        &&& (self.closed matches Some(c) ==> c.wf())
        &&& (self.open matches Some(o) ==> o.wf() && o.height() > 0)
    }
}

/// The bars an append folds: the open period's bars followed by the new ones.
pub open spec fn raw_of(c: CumulatorView, fine: FrameView) -> FrameView {
    match c.open {
        Some(o) => o.concat(fine),
        None => fine,
    }
}

/// The state after a successful append: every run of the raw bars but the
/// last is aggregated onto the closed rows, and the last run stays open.
pub open spec fn spec_append(c: CumulatorView, fine: FrameView) -> CumulatorView {
    let raw = raw_of(c, fine);
    let rs = frame_runs(raw, c.tf);
    CumulatorView {
        tf: c.tf,
        spec: c.spec,
        closed: fold_onto(c.closed, coarse_rows(raw, rs.drop_last(), c.spec)),
        open: Some(raw.slice(rs.last().0, rs.last().1)),
    }
}

/// The cumulated frame of a state: the closed rows followed by the open
/// period aggregated as a live last row; `None` when that fails.
pub open spec fn spec_frame(c: CumulatorView) -> Option<FrameView> {
    let live = match c.open {
        Some(o) => spec_aggregate(o, c.spec),
        None => None,
    };
    match (c.closed, c.open) {
        (Some(cl), Some(o)) => match live {
            Some(l) => if cl.compatible(l) && cl.height() + 1 <= usize::MAX { Some(cl.concat(l)) } else { None },
            None => None,
        },
        (Some(cl), None) => Some(cl),
        (None, Some(o)) => live,
        (None, None) => Some(
            FrameView { names: seq![], columns: seq![], index: IndexView { kind: IndexKindView::Range(0), name: None } },
        ),
    }
}

/// When an append succeeds: there are new bars, they can follow the open
/// period's bars, together they form a cumulable frame, and every period that
/// closes aggregates and can follow the closed rows.
pub open spec fn append_owed(c: CumulatorView, fine: FrameView) -> bool {
    let raw = raw_of(c, fine);
    let rs = frame_runs(raw, c.tf);
    &&& fine.height() > 0
    &&& (c.open matches Some(o) ==> o.compatible(fine) && o.height() + fine.height() <= usize::MAX)
    &&& cumulable(raw)
    &&& runs_aggregate(raw, rs.drop_last(), c.spec)
    &&& fold_fits(c.closed, coarse_rows(raw, rs.drop_last(), c.spec))
}

/// What a failed append leaves of the closed rows: nothing, or the closed
/// rows followed by the coarse rows of the first runs of the raw bars (those
/// aggregated before the failure).
pub open spec fn closed_after_failure(c: CumulatorView, fine: FrameView, closed: Option<FrameView>) -> bool {
    let raw = raw_of(c, fine);
    let rs = frame_runs(raw, c.tf);
    closed is None || exists|j: int|
        0 <= j <= rs.len() && closed == #[trigger] fold_onto(c.closed, coarse_rows(raw, rs.take(j), c.spec))
}

/// A failure before any run is aggregated leaves the closed rows as they were.
proof fn lemma_closed_kept(c: CumulatorView, fine: FrameView)
    ensures
        closed_after_failure(c, fine, c.closed),
{
    let raw = raw_of(c, fine);
    let rs = frame_runs(raw, c.tf);
    assert(coarse_rows(raw, rs.take(0), c.spec) =~= Seq::<FrameView>::empty());
    assert(fold_onto(c.closed, coarse_rows(raw, rs.take(0), c.spec)) == c.closed);
}

/// A stateful, incremental OHLCV cumulator: finalized coarse rows of the
/// closed periods, and the raw bars of the still-open last period.
pub struct Cumulator {
    tf: TimeFrame,
    spec: AggSpec,
    closed: Option<Frame>,
    open: Option<Frame>,
}

pub open spec fn opt_view(f: Option<Frame>) -> Option<FrameView> {
    match f {
        Some(x) => Some(x@),
        None => None,
    }
}

impl View for Cumulator {
    type V = CumulatorView;

    closed spec fn view(&self) -> CumulatorView {
        CumulatorView { tf: self.tf, spec: self.spec@, closed: opt_view(self.closed), open: opt_view(self.open) }
    }
}

/// Aggregates the first `count` runs of `raw` onto `closed`, in order.
fn close_runs(
    closed: &mut Option<Frame>,
    raw: &Frame,
    runs: &Vec<(usize, usize)>,
    count: usize,
    spec: &AggSpec,
) -> (r: Result<(), VolasError>)
    requires
        raw@.wf(),
        count <= runs.len(),
        forall|q: int| 0 <= q < runs.len() ==> 0 <= (#[trigger] runs@[q]).0 < runs@[q].1 <= raw@.height(),
        opt_view(*old(closed)) matches Some(c) ==> c.wf(),
    ensures
        opt_view(*final(closed)) matches Some(c) ==> c.wf(),
        r is Ok <==> runs_aggregate(raw@, run_views(runs@).take(count as int), spec@) && fold_fits(
            opt_view(*old(closed)),
            coarse_rows(raw@, run_views(runs@).take(count as int), spec@),
        ),
        r is Ok ==> opt_view(*final(closed)) == fold_onto(
            opt_view(*old(closed)),
            coarse_rows(raw@, run_views(runs@).take(count as int), spec@),
        ),
        r is Err ==> opt_view(*final(closed)) is None || exists|j: int|
            0 <= j < count && opt_view(*final(closed)) == #[trigger] fold_onto(
                opt_view(*old(closed)),
                coarse_rows(raw@, run_views(runs@).take(j), spec@),
            ),
{
    let ghost rs = run_views(runs@);
    let mut j: usize = 0;
    while j < count
        invariant
            raw@.wf(),
            rs == run_views(runs@),
            count <= runs.len(),
            forall|q: int| 0 <= q < runs.len() ==> 0 <= (#[trigger] runs@[q]).0 < runs@[q].1 <= raw@.height(),
            j <= count,
            opt_view(*closed) matches Some(c) ==> c.wf(),
            opt_view(*closed) == fold_onto(opt_view(*old(closed)), coarse_rows(raw@, rs.take(j as int), spec@)),
            runs_aggregate(raw@, rs.take(j as int), spec@),
            fold_fits(opt_view(*old(closed)), coarse_rows(raw@, rs.take(j as int), spec@)),
        decreases count - j,
    {
        let (a, b) = runs[j];
        assert(rs[j as int] == (a as int, b as int));
        let piece = raw.slice(a, b);
        let ghost all_rows = coarse_rows(raw@, rs.take(count as int), spec@);
        let ghost before = opt_view(*closed);
        proof {
            assert(rs.take(count as int)[j as int] == rs[j as int]);
            assert(all_rows.take(j as int) =~= coarse_rows(raw@, rs.take(j as int), spec@));
        }
        let coarse = match aggregate_period(&piece, spec) {
            Ok(c) => c,
            Err(e) => {
                proof {
                    assert(spec_aggregate(
                        raw@.slice(rs.take(count as int)[j as int].0, rs.take(count as int)[j as int].1),
                        spec@,
                    ) is None);
                    assert(opt_view(*closed) == fold_onto(opt_view(*old(closed)), coarse_rows(raw@, rs.take(j as int), spec@)));
                }
                return Err(e);
            },
        };
        assert(all_rows[j as int] == coarse@);
        *closed = match closed.take() {
            Some(mut c) => {
                match c.append(&coarse) {
                    Ok(()) => Some(c),
                    Err(e) => {
                        proof {
                            assert(!fits_after(fold_onto(opt_view(*old(closed)), all_rows.take(j as int)), all_rows[j as int]));
                        }
                        return Err(e);
                    },
                }
            },
            None => Some(coarse),
        };
        proof {
            let rows1 = coarse_rows(raw@, rs.take(j + 1), spec@);
            assert(rows1.take(j as int) =~= coarse_rows(raw@, rs.take(j as int), spec@));
            assert(rows1[j as int] == coarse@);
            assert forall|i: int| 0 <= i < rows1.len() implies fits_after(#[trigger] fold_onto(opt_view(*old(closed)), rows1.take(i)), rows1[i]) by {
                if i < j {
                    let rows0 = coarse_rows(raw@, rs.take(j as int), spec@);
                    assert(rows1.take(i) =~= rows0.take(i));
                    assert(rows1[i] == rows0[i]);
                    assert(fits_after(fold_onto(opt_view(*old(closed)), rows0.take(i)), rows0[i]));
                } else {
                    assert(fold_onto(opt_view(*old(closed)), rows1.take(i)) == before);
                }
            }
        }
        proof {
            let rows = coarse_rows(raw@, rs.take(j + 1), spec@);
            assert(rs.take(j + 1).drop_last() =~= rs.take(j as int));
            assert(rows.drop_last() =~= coarse_rows(raw@, rs.take(j as int), spec@));
            assert(rows.last() == coarse@);
            assert forall|q: int| 0 <= q < rs.take(j + 1).len() implies (#[trigger] spec_aggregate(
                raw@.slice(rs.take(j + 1)[q].0, rs.take(j + 1)[q].1),
                spec@,
            )) is Some by {
                if q < j {
                    assert(rs.take(j + 1)[q] == rs.take(j as int)[q]);
                }
            }
        }
        j = j + 1;
    }
    Ok(())
}

impl Cumulator {
    /// A fresh cumulator for `tf` with aggregation `spec`.
    pub fn new(tf: TimeFrame, spec: AggSpec) -> (r: Cumulator)
        ensures
            r@ == (CumulatorView { tf, spec: spec@, closed: None, open: None }),
    {
        Cumulator { tf, spec, closed: None, open: None }
    }

    /// Feed fine bars (which must have a datetime index). Periods that close
    /// are finalized; the trailing period stays open for the next call.
    #[verifier::rlimit(60)]
    #[verifier::spinoff_prover]
    pub fn append(&mut self, fine: &Frame) -> (r: Result<(), VolasError>)
        requires
            old(self)@.wf(),
            fine@.wf(),
        ensures
            final(self)@.wf(),
            final(self)@.tf == old(self)@.tf,
            final(self)@.spec == old(self)@.spec,
            fine@.height() == 0 ==> (r matches Err(e) && e is Value) && final(self)@ == old(self)@,
            r is Err && fine@.height() > 0 ==> final(self)@.open is None,
            r is Err ==> closed_after_failure(old(self)@, fine@, final(self)@.closed),
            r is Ok <==> append_owed(old(self)@, fine@),
            r is Ok ==> final(self)@ == spec_append(old(self)@, fine@),
    {
        proof {
            lemma_closed_kept(self@, fine@);
        }
        if fine.height() == 0 {
            return Err(VolasError::Value("the data frame to be appended is empty".to_owned()));
        }
        let ghost old_view = self@;
        let raw = match self.open.take() {
            Some(mut o) => {
                match o.append(fine) {
                    Ok(()) => o,
                    Err(e) => {
                        return Err(e);
                    },
                }
            },
            None => fine.duplicate(),
        };
        assert(raw@ == raw_of(old_view, fine@));
        let ix = raw.index();
        let (ts, tz) = match &ix.kind {
            IndexKind::Datetime(v, tz) => (v, *tz),
            _ => {
                return Err(VolasError::Value("cumulation target must have a DatetimeIndex".to_owned()));
            },
        };
        assert(ix@.kind == IndexKindView::Datetime(ts@, tz));
        let off_ok = match tz {
            Tz::Fixed(o) => -86400 < o && o < 86400,
            _ => true,
        };
        if !off_ok {
            return Err(VolasError::Value("the index time zone offset must be less than a day".to_owned()));
        }
        if has_nat(ts) {
            return Err(VolasError::Value(
                "cannot cumulate over a DatetimeIndex containing NaT; drop or fill the missing index timestamps first".to_owned(),
            ));
        }
        assert(ts@.len() == raw@.height());
        let runs = group_runs(ts, self.tf, tz);
        let ghost k = spec_keys(ts@, self.tf, tz);
        let ghost rs = run_views(runs@);
        proof {
            lemma_keys_len(ts@, old_view.tf, tz);
            lemma_runs_shape(k);
            assert forall|q: int| 0 <= q < runs.len() implies 0 <= (#[trigger] runs@[q]).0 < runs@[q].1 <= raw@.height() by {
                assert(rs[q] == (runs@[q].0 as int, runs@[q].1 as int));
            }
        }
        let last = runs.len() - 1;
        let ghost before_closed = opt_view(self.closed);
        match close_runs(&mut self.closed, &raw, &runs, last, &self.spec) {
            Ok(()) => {},
            Err(e) => {
                return Err(e);
            },
        }
        let (a, b) = runs[last];
        assert(rs[last as int] == (a as int, b as int));
        self.open = Some(raw.slice(a, b));
        proof {
            assert(rs.take(last as int) =~= rs.drop_last());
            assert(before_closed == old_view.closed);
        }
        Ok(())
    }

    /// The current cumulated frame: the closed periods plus the open period
    /// aggregated as the (live) last row.
    pub fn frame(&self) -> (r: Result<Frame, VolasError>)
        requires
            self@.wf(),
        ensures
            match r {
                Ok(f) => spec_frame(self@) == Some(f@) && f@.wf(),
                Err(_) => spec_frame(self@) is None,
            },
    {
        let open_coarse = match &self.open {
            Some(o) => {
                match aggregate_period(o, &self.spec) {
                    Ok(c) => Some(c),
                    Err(e) => {
                        return Err(e);
                    },
                }
            },
            None => None,
        };
        match (&self.closed, open_coarse) {
            (Some(closed), Some(live)) => {
                let mut out = closed.duplicate();
                match out.append(&live) {
                    Ok(()) => Ok(out),
                    Err(e) => Err(e),
                }
            },
            (Some(closed), None) => Ok(closed.duplicate()),
            (None, Some(live)) => Ok(live),
            (None, None) => {
                let r = Frame::new(Vec::new(), Vec::new(), None);
                match r {
                    Ok(f) => {
                        assert(f@.names =~= Seq::<Seq<char>>::empty());
                        assert(f@.columns =~= Seq::<ColumnView>::empty());
                        Ok(f)
                    },
                    Err(e) => Err(e),
                }
            },
        }
    }

    /// The current open period aggregated into a single (live) coarse bar,
    /// or `None` if nothing is open.
    pub fn last(&self) -> (r: Result<Option<Frame>, VolasError>)
        requires
            self@.wf(),
        ensures
            match self@.open {
                None => r matches Ok(None),
                Some(o) => match r {
                    Ok(Some(f)) => spec_aggregate(o, self@.spec) == Some(f@),
                    Ok(None) => false,
                    Err(_) => spec_aggregate(o, self@.spec) is None,
                },
            },
    {
        match &self.open {
            Some(open) => {
                match aggregate_period(open, &self.spec) {
                    Ok(f) => Ok(Some(f)),
                    Err(e) => Err(e),
                }
            },
            None => Ok(None),
        }
    }

    /// A copy of the still-open period's raw bars (`None` if nothing is open),
    /// to carry the folding state forward after a one-shot cumulation.
    pub fn open_clone(&self) -> (r: Option<Frame>)
        requires
            self@.wf(),
        ensures
            opt_view(r) == self@.open,
    {
        match &self.open {
            Some(o) => Some(o.duplicate()),
            None => None,
        }
    }
}

/// One-shot resample of `df` (which must have a datetime index) into `tf`
/// periods: one row per maximal run of bars in one period.
pub fn cumulate(df: &Frame, tf: TimeFrame, spec: &AggSpec) -> (r: Result<Frame, VolasError>)
    requires
        df@.wf(),
    ensures
        match r {
            Ok(f) => spec_cumulate(df@, tf, spec@) == Some(f@) && f@.wf(),
            Err(_) => spec_cumulate(df@, tf, spec@) is None,
        },
{
    let h = df.height();
    proof {
        crate::one_shot::lemma_one_shot(df@, tf, spec@);
    }
    let mut cumulator = Cumulator::new(tf, spec.clone());
    match cumulator.append(df) {
        Ok(()) => {},
        Err(e) => {
            proof {
                if cumulable(df@) {
                    crate::cumulate_laws::lemma_frame_runs_shape(df@, tf);
                    let rs = frame_runs(df@, tf);
                    if runs_aggregate(df@, rs, spec@) {
                        assert(runs_aggregate(df@, rs.drop_last(), spec@)) by {
                            assert forall|i: int| 0 <= i < rs.drop_last().len() implies (#[trigger] spec_aggregate(
                                df@.slice(rs.drop_last()[i].0, rs.drop_last()[i].1),
                                spec@,
                            )) is Some by {
                                assert(rs.drop_last()[i] == rs[i]);
                            }
                        }
                    }
                }
            }
            return Err(e);
        },
    }
    cumulator.frame()
}

} // verus!
