//! A re-sent bar, one with the timestamp of the last bar of its period,
//! updates the period rather than counting twice.

use vstd::prelude::*;

use crate::agg::{spec_reduce, Agg, AggSpecView};
use crate::cumulate::{agg_columns, lemma_dedup_ok, spec_aggregate, spec_dedup};
use crate::frame::{ColumnView, FrameView, IndexKindView};

verus! {

/// Reducing a column at kept rows depends only on the values those rows hold.
proof fn lemma_reduce_by_values(a: Agg, c1: ColumnView, k1: Seq<usize>, c2: ColumnView, k2: Seq<usize>)
    requires
        k1.len() == k2.len(),
        k1.len() > 0,
        c1.take(k1) == c2.take(k2),
    ensures
        spec_reduce(a, c1, k1) == spec_reduce(a, c2, k2),
{
    let n = k1.len() - 1;
    match (c1, c2) {
        (ColumnView::I64(v), ColumnView::I64(w)) => {
            let s1 = k1.map_values(|p: usize| v[p as int]);
            let s2 = k2.map_values(|p: usize| w[p as int]);
            assert(s1 == s2);
            assert(s1[0] == v[k1[0] as int] && s2[0] == w[k2[0] as int]);
            assert(s1[n] == v[k1[n] as int] && s2[n] == w[k2[n] as int]);
            assert(seq![k1[0]].map_values(|p: usize| v[p as int]) =~= seq![k2[0]].map_values(|p: usize| w[p as int]));
            assert(seq![k1.last()].map_values(|p: usize| v[p as int]) =~= seq![k2.last()].map_values(|p: usize| w[p as int]));
        },
        (ColumnView::Datetime(v), ColumnView::Datetime(w)) => {
            let s1 = k1.map_values(|p: usize| v[p as int]);
            let s2 = k2.map_values(|p: usize| w[p as int]);
            assert(s1 == s2);
            assert(s1[0] == v[k1[0] as int] && s2[0] == w[k2[0] as int]);
            assert(s1[n] == v[k1[n] as int] && s2[n] == w[k2[n] as int]);
            assert(seq![k1[0]].map_values(|p: usize| v[p as int]) =~= seq![k2[0]].map_values(|p: usize| w[p as int]));
            assert(seq![k1.last()].map_values(|p: usize| v[p as int]) =~= seq![k2.last()].map_values(|p: usize| w[p as int]));
        },
        (ColumnView::Bool(v), ColumnView::Bool(w)) => {
            let s1 = k1.map_values(|p: usize| v[p as int]);
            let s2 = k2.map_values(|p: usize| w[p as int]);
            assert(s1 == s2);
            assert(s1[0] == v[k1[0] as int] && s2[0] == w[k2[0] as int]);
            assert(s1[n] == v[k1[n] as int] && s2[n] == w[k2[n] as int]);
            assert(seq![k1[0]].map_values(|p: usize| v[p as int]) =~= seq![k2[0]].map_values(|p: usize| w[p as int]));
            assert(seq![k1.last()].map_values(|p: usize| v[p as int]) =~= seq![k2.last()].map_values(|p: usize| w[p as int]));
        },
        (ColumnView::Str(v), ColumnView::Str(w)) => {
            let s1 = k1.map_values(|p: usize| v[p as int]);
            let s2 = k2.map_values(|p: usize| w[p as int]);
            assert(s1 == s2);
            assert(s1[0] == v[k1[0] as int] && s2[0] == w[k2[0] as int]);
            assert(s1[n] == v[k1[n] as int] && s2[n] == w[k2[n] as int]);
            assert(seq![k1[0]].map_values(|p: usize| v[p as int]) =~= seq![k2[0]].map_values(|p: usize| w[p as int]));
            assert(seq![k1.last()].map_values(|p: usize| v[p as int]) =~= seq![k2.last()].map_values(|p: usize| w[p as int]));
        },
        _ => {},
    }
}

/// The rows `x` and then the appended row, taken from a column followed by
/// one more row, hold what the rows `x` and then that row hold once the
/// column's last row is dropped.
proof fn lemma_take_replaced(c: ColumnView, d: ColumnView, x: Seq<usize>, h: int)
    requires
        c.same_kind(d),
        c.len() == h,
        1 <= h <= usize::MAX,
        d.len() == 1,
        forall|i: int| 0 <= i < x.len() ==> #[trigger] x[i] < h - 1,
    ensures
        c.concat(d).take(x.push(h as usize)) == c.slice(0, h - 1).concat(d).take(x.push((h - 1) as usize)),
{
    match (c, d) {
        (ColumnView::I64(v), ColumnView::I64(w)) => {
            let l = x.push(h as usize).map_values(|p: usize| (v + w)[p as int]);
            let r = x.push((h - 1) as usize).map_values(|p: usize| (v.subrange(0, h - 1) + w)[p as int]);
            assert forall|i: int| 0 <= i < l.len() implies l[i] == r[i] by {
                if i < x.len() {
                    assert(x.push(h as usize)[i] == x[i]);
                    assert(x.push((h - 1) as usize)[i] == x[i]);
                }
            }
            assert(l =~= r);
        },
        (ColumnView::Datetime(v), ColumnView::Datetime(w)) => {
            let l = x.push(h as usize).map_values(|p: usize| (v + w)[p as int]);
            let r = x.push((h - 1) as usize).map_values(|p: usize| (v.subrange(0, h - 1) + w)[p as int]);
            assert forall|i: int| 0 <= i < l.len() implies l[i] == r[i] by {
                if i < x.len() {
                    assert(x.push(h as usize)[i] == x[i]);
                    assert(x.push((h - 1) as usize)[i] == x[i]);
                }
            }
            assert(l =~= r);
        },
        (ColumnView::Bool(v), ColumnView::Bool(w)) => {
            let l = x.push(h as usize).map_values(|p: usize| (v + w)[p as int]);
            let r = x.push((h - 1) as usize).map_values(|p: usize| (v.subrange(0, h - 1) + w)[p as int]);
            assert forall|i: int| 0 <= i < l.len() implies l[i] == r[i] by {
                if i < x.len() {
                    assert(x.push(h as usize)[i] == x[i]);
                    assert(x.push((h - 1) as usize)[i] == x[i]);
                }
            }
            assert(l =~= r);
        },
        (ColumnView::Str(v), ColumnView::Str(w)) => {
            let l = x.push(h as usize).map_values(|p: usize| (v + w)[p as int]);
            let r = x.push((h - 1) as usize).map_values(|p: usize| (v.subrange(0, h - 1) + w)[p as int]);
            assert forall|i: int| 0 <= i < l.len() implies l[i] == r[i] by {
                if i < x.len() {
                    assert(x.push(h as usize)[i] == x[i]);
                    assert(x.push((h - 1) as usize)[i] == x[i]);
                }
            }
            assert(l =~= r);
        },
        _ => {},
    }
}

/// A bar re-sent with the timestamp of the last bar of a period replaces
/// that bar: the period followed by the re-sent bar aggregates exactly as
/// the period whose last bar is the re-sent one. Folding a bar and then a
/// re-send of it therefore never counts it twice.
pub proof fn law_resent_bar_replaces_last(p: FrameView, b: FrameView, sp: AggSpecView)
    requires
        p.wf(),
        b.wf(),
        p.height() >= 1,
        p.height() < usize::MAX,
        b.height() == 1,
        p.compatible(b),
        p.index.kind is Datetime,
        b.index.kind->Datetime_0[0] == p.index.kind->Datetime_0.last(),
    ensures
        spec_aggregate(p.concat(b), sp) == spec_aggregate(p.slice(0, p.height() - 1).concat(b), sp),
{
    reveal(spec_aggregate);
    let h = p.height() as int;
    let ts = p.index.kind->Datetime_0;
    let tz = p.index.kind->Datetime_1;
    let bts = b.index.kind->Datetime_0;
    let q = p.slice(0, h - 1);
    let f1 = p.concat(b);
    let f2 = q.concat(b);
    let t1 = ts + bts;
    let t2 = ts.subrange(0, h - 1) + bts;
    assert(f1.index.kind == IndexKindView::Datetime(t1, tz));
    assert(f2.index.kind == IndexKindView::Datetime(t2, tz));
    let k1 = spec_dedup(t1);
    let k2 = spec_dedup(t2);
    let x = spec_dedup(ts).drop_last();
    assert(t1.drop_last() =~= ts);
    assert(k1 == x.push(h as usize));
    if h == 1 {
        assert(spec_dedup(ts) == seq![0usize]);
        assert(x =~= Seq::<usize>::empty());
        assert(t2 =~= bts);
        assert(k2 == x.push(0usize));
    } else {
        assert(t2.drop_last() =~= ts.subrange(0, h - 1));
        assert(ts.drop_last() =~= ts.subrange(0, h - 1));
        let d = spec_dedup(ts.subrange(0, h - 1));
        assert(t2[h - 1] == ts[h - 1]);
        assert(t2[h - 2] == ts[h - 2]);
        assert(k2 == (if ts[h - 1] == ts[h - 2] { d.drop_last() } else { d }).push((h - 1) as usize));
        assert(x =~= (if ts[h - 1] == ts[h - 2] { d.drop_last() } else { d }));
        lemma_dedup_ok(ts.subrange(0, h - 1));
        assert forall|i: int| 0 <= i < x.len() implies #[trigger] x[i] < h - 1 by {
            assert(x[i] == d[i]);
        }
    }
    assert forall|i: int| 0 <= i < x.len() implies #[trigger] x[i] < h - 1 by {
        if h > 1 {
            assert(x[i] < h - 1);
        }
    }
    let cs1 = agg_columns(f1, sp, k1);
    let cs2 = agg_columns(f2, sp, k2);
    assert forall|j: int| 0 <= j < cs1.len() implies #[trigger] cs1[j] == cs2[j] by {
        assert(p.columns[j].len() == h);
        assert(b.columns[j].len() == 1);
        assert(p.columns[j].same_kind(b.columns[j]));
        assert(q.columns[j] == p.columns[j].slice(0, h - 1));
        lemma_take_replaced(p.columns[j], b.columns[j], x, h);
        lemma_reduce_by_values(
            crate::agg::spec_agg_for(sp, p.names[j]),
            f1.columns[j],
            k1,
            f2.columns[j],
            k2,
        );
    }
    assert(cs1 =~= cs2);
    if x.len() > 0 {
        assert(t1[k1[0] as int] == ts[x[0] as int]);
        assert(t2[k2[0] as int] == ts[x[0] as int]);
    } else {
        assert(t1[k1[0] as int] == bts[0]);
        assert(t2[k2[0] as int] == bts[0]);
    }
}

} // verus!
