//! Typed aggregators for cumulation, and the per-column assignment of them.

use vstd::prelude::*;

use crate::error::VolasError;
use crate::frame::{Column, ColumnView};
use crate::text::same_text;

verus! {

/// A column aggregator over a period's rows.
#[derive(Clone, Copy, Debug, PartialEq, Eq, Structural)]
pub enum Agg {
    /// First value.
    First,
    /// Maximum (numeric / datetime).
    Max,
    /// Minimum (numeric / datetime).
    Min,
    /// Last value.
    Last,
    /// Sum (numeric).
    Sum,
}

/// The aggregator a name stands for.
pub open spec fn spec_agg_from_name(s: Seq<char>) -> Option<Agg> {
    if s == "first"@ {
        Some(Agg::First)
    } else if s == "max"@ {
        Some(Agg::Max)
    } else if s == "min"@ {
        Some(Agg::Min)
    } else if s == "last"@ {
        Some(Agg::Last)
    } else if s == "sum"@ {
        Some(Agg::Sum)
    } else {
        None
    }
}

pub open spec fn spec_agg_name(a: Agg) -> Seq<char> {
    match a {
        Agg::First => "first"@,
        Agg::Max => "max"@,
        Agg::Min => "min"@,
        Agg::Last => "last"@,
        Agg::Sum => "sum"@,
    }
}

/// Largest value of a non-empty sequence.
pub open spec fn seq_max(s: Seq<i64>) -> int
    decreases s.len(),
{
    if s.len() <= 1 {
        s[0] as int
    } else {
        let m = seq_max(s.drop_last());
        if s.last() > m { s.last() as int } else { m }
    }
}

/// Smallest value of a non-empty sequence.
pub open spec fn seq_min(s: Seq<i64>) -> int
    decreases s.len(),
{
    if s.len() <= 1 {
        s[0] as int
    } else {
        let m = seq_min(s.drop_last());
        if s.last() < m { s.last() as int } else { m }
    }
}

/// Sum of a sequence.
pub open spec fn seq_sum(s: Seq<i64>) -> int
    decreases s.len(),
{
    if s.len() == 0 {
        0
    } else {
        seq_sum(s.drop_last()) + s.last()
    }
}

pub open spec fn fits_i64(x: int) -> bool {
    i64::MIN <= x <= i64::MAX
}

/// Whether the aggregator applies to a column of this dtype.
pub open spec fn agg_applies(a: Agg, col: ColumnView) -> bool {
    match a {
        Agg::First | Agg::Last => true,
        _ => match col {
            ColumnView::I64(_) | ColumnView::Datetime(_) => true,
            _ => false,
        },
    }
}

/// The one value a numeric aggregator makes of `vals`.
pub open spec fn numeric_result(a: Agg, vals: Seq<i64>) -> int {
    match a {
        Agg::Max => seq_max(vals),
        Agg::Min => seq_min(vals),
        _ => seq_sum(vals),
    }
}

/// The 1-row column an aggregator makes of the rows `kept` of `col`, or `None`
/// when the dtype does not allow it or the sum leaves the `i64` range.
pub open spec fn spec_reduce(a: Agg, col: ColumnView, kept: Seq<usize>) -> Option<ColumnView> {
    match a {
        Agg::First => Some(col.take(seq![kept[0]])),
        Agg::Last => Some(col.take(seq![kept.last()])),
        _ => match col {
            ColumnView::I64(v) => {
                let x = numeric_result(a, kept.map_values(|p: usize| v[p as int]));
                if fits_i64(x) { Some(ColumnView::I64(seq![x as i64])) } else { None }
            },
            ColumnView::Datetime(v) => {
                let x = numeric_result(a, kept.map_values(|p: usize| v[p as int]));
                if fits_i64(x) { Some(ColumnView::Datetime(seq![x as i64])) } else { None }
            },
            _ => None,
        },
    }
}

/// The message of the error for an aggregator that does not apply to a dtype.
pub open spec fn dtype_message(a: Agg, col: ColumnView) -> Seq<char> {
    "cannot "@ + spec_agg_name(a) + " a "@ + col.dtype_name() + " column"@
}

proof fn lemma_max_min_in_range(s: Seq<i64>)
    requires
        s.len() >= 1,
    ensures
        fits_i64(seq_max(s)),
        fits_i64(seq_min(s)),
    decreases s.len(),
{
    if s.len() > 1 {
        lemma_max_min_in_range(s.drop_last());
    }
}

impl Agg {
    /// Parse an aggregator name (`first` / `max` / `min` / `last` / `sum`).
    pub fn from_name(s: &str) -> (r: Result<Agg, VolasError>)
        ensures
            match spec_agg_from_name(s@) {
                Some(a) => r == Ok::<Agg, VolasError>(a),
                None => r matches Err(VolasError::Value(m)) && m@ == "unknown aggregator '"@ + s@ + "'"@,
            },
    {
        if same_text(s, "first") {
            Ok(Agg::First)
        } else if same_text(s, "max") {
            Ok(Agg::Max)
        } else if same_text(s, "min") {
            Ok(Agg::Min)
        } else if same_text(s, "last") {
            Ok(Agg::Last)
        } else if same_text(s, "sum") {
            Ok(Agg::Sum)
        } else {
            let mut m = "unknown aggregator '".to_owned();
            m.append(s);
            m.append("'");
            Err(VolasError::Value(m))
        }
    }

    /// The aggregator's name.
    pub fn name(&self) -> (r: &'static str)
        ensures
            r@ == spec_agg_name(*self),
    {
        match self {
            Agg::First => "first",
            Agg::Max => "max",
            Agg::Min => "min",
            Agg::Last => "last",
            Agg::Sum => "sum",
        }
    }

    /// Reduce the values at `kept` positions of `col` to a 1-element column of
    /// the appropriate dtype.
    pub fn reduce(&self, col: &Column, kept: &Vec<usize>) -> (r: Result<Column, VolasError>)
        requires
            kept.len() > 0,
            forall|k: int| 0 <= k < kept.len() ==> kept[k] < col@.len(),
        ensures
            match r {
                Ok(c) => spec_reduce(*self, col@, kept@) == Some(c@),
                Err(e) => {
                    &&& spec_reduce(*self, col@, kept@) is None
                    &&& !agg_applies(*self, col@) ==> (e matches VolasError::DType(m) && m@ == dtype_message(
                        *self,
                        col@,
                    ))
                    &&& agg_applies(*self, col@) ==> e is Value
                },
            },
    {
        match self {
            Agg::First => {
                let mut pos: Vec<usize> = Vec::new();
                pos.push(kept[0]);
                assert(pos@ =~= seq![kept@[0]]);
                Ok(col.take(&pos))
            },
            Agg::Last => {
                let mut pos: Vec<usize> = Vec::new();
                pos.push(kept[kept.len() - 1]);
                assert(pos@ =~= seq![kept@.last()]);
                Ok(col.take(&pos))
            },
            _ => self.reduce_numeric(col, kept),
        }
    }

    fn reduce_numeric(&self, col: &Column, kept: &Vec<usize>) -> (r: Result<Column, VolasError>)
        requires
            *self != Agg::First,
            *self != Agg::Last,
            kept.len() > 0,
            forall|k: int| 0 <= k < kept.len() ==> kept[k] < col@.len(),
        ensures
            match r {
                Ok(c) => spec_reduce(*self, col@, kept@) == Some(c@),
                Err(e) => {
                    &&& spec_reduce(*self, col@, kept@) is None
                    &&& !agg_applies(*self, col@) ==> (e matches VolasError::DType(m) && m@ == dtype_message(
                        *self,
                        col@,
                    ))
                    &&& agg_applies(*self, col@) ==> e is Value
                },
            },
    {
        match col {
            Column::I64(v) => match self.fold_values(v, kept) {
                Some(x) => {
                    let mut out: Vec<i64> = Vec::new();
                    out.push(x);
                    assert(out@ =~= seq![x]);
                    Ok(Column::I64(out))
                },
                None => Err(VolasError::Value("the sum overflows int64".to_owned())),
            },
            Column::Datetime(v) => match self.fold_values(v, kept) {
                Some(x) => {
                    let mut out: Vec<i64> = Vec::new();
                    out.push(x);
                    assert(out@ =~= seq![x]);
                    Ok(Column::Datetime(out))
                },
                None => Err(VolasError::Value("the sum overflows int64".to_owned())),
            },
            _ => {
                let mut m = "cannot ".to_owned();
                m.append(self.name());
                m.append(" a ");
                m.append(col.dtype_name());
                m.append(" column");
                Err(VolasError::DType(m))
            },
        }
    }

    /// Max / min / sum of the values at `kept`, or `None` when the sum leaves
    /// the `i64` range.
    fn fold_values(&self, v: &Vec<i64>, kept: &Vec<usize>) -> (r: Option<i64>)
        requires
            *self != Agg::First,
            *self != Agg::Last,
            kept.len() > 0,
            forall|k: int| 0 <= k < kept.len() ==> kept[k] < v.len(),
        ensures
            ({
                let x = numeric_result(*self, kept@.map_values(|p: usize| v@[p as int]));
                match r {
                    Some(y) => fits_i64(x) && y == x,
                    None => !fits_i64(x),
                }
            }),
    {
        let ghost vals = kept@.map_values(|p: usize| v@[p as int]);
        if *self == Agg::Sum {
            let mut total: i128 = 0;
            let mut k: usize = 0;
            assert(vals.take(0) =~= Seq::<i64>::empty());
            while k < kept.len()
                invariant
                    vals == kept@.map_values(|p: usize| v@[p as int]),
                    forall|j: int| 0 <= j < kept.len() ==> kept[j] < v.len(),
                    k <= kept.len(),
                    total == seq_sum(vals.take(k as int)),
                    -(k as int) * 0x8000_0000_0000_0000 <= total <= (k as int) * 0x8000_0000_0000_0000,
                decreases kept.len() - k,
            {
                let x = v[kept[k]];
                assert(vals.take(k + 1).drop_last() =~= vals.take(k as int));
                total = total + x as i128;
                k = k + 1;
            }
            assert(vals.take(kept.len() as int) =~= vals);
            if total < i64::MIN as i128 || total > i64::MAX as i128 {
                None
            } else {
                Some(total as i64)
            }
        } else {
            let mut acc: i64 = v[kept[0]];
            let mut k: usize = 1;
            assert(vals.take(1).drop_last() =~= Seq::<i64>::empty());
            while k < kept.len()
                invariant
                    *self == Agg::Max || *self == Agg::Min,
                    vals == kept@.map_values(|p: usize| v@[p as int]),
                    forall|j: int| 0 <= j < kept.len() ==> kept[j] < v.len(),
                    1 <= k <= kept.len(),
                    acc == numeric_result(*self, vals.take(k as int)),
                decreases kept.len() - k,
            {
                let x = v[kept[k]];
                assert(vals.take(k + 1).drop_last() =~= vals.take(k as int));
                if *self == Agg::Max {
                    if x > acc {
                        acc = x;
                    }
                } else {
                    if x < acc {
                        acc = x;
                    }
                }
                k = k + 1;
            }
            assert(vals.take(kept.len() as int) =~= vals);
            proof {
                lemma_max_min_in_range(vals);
            }
            Some(acc)
        }
    }
}


/// The contents of an [`AggSpec`].
pub struct AggSpecView {
    pub default: Agg,
    pub by_name: Map<Seq<char>, Agg>,
}

/// The assignment made by a list of `(name, aggregator)` entries, later
/// entries overriding earlier ones.
pub open spec fn entries_map(e: Seq<(Seq<char>, Agg)>) -> Map<Seq<char>, Agg>
    decreases e.len(),
{
    if e.len() == 0 {
        Map::empty()
    } else {
        entries_map(e.drop_last()).insert(e.last().0, e.last().1)
    }
}

pub open spec fn entry_views(e: Seq<(String, Agg)>) -> Seq<(Seq<char>, Agg)> {
    e.map_values(|p: (String, Agg)| (p.0@, p.1))
}

/// The aggregator a spec assigns to a column name.
pub open spec fn spec_agg_for(v: AggSpecView, name: Seq<char>) -> Agg {
    if v.by_name.contains_key(name) {
        v.by_name[name]
    } else {
        v.default
    }
}

/// The OHLCV assignment: open=first, high=max, low=min, close=last,
/// volume=sum.
pub open spec fn ohlcv_map() -> Map<Seq<char>, Agg> {
    Map::empty().insert("open"@, Agg::First).insert("high"@, Agg::Max).insert("low"@, Agg::Min).insert(
        "close"@,
        Agg::Last,
    ).insert("volume"@, Agg::Sum)
}

/// Per-column aggregator assignment, with a default for unlisted columns.
#[derive(Debug)]
pub struct AggSpec {
    default: Agg,
    by_name: Vec<(String, Agg)>,
}

impl View for AggSpec {
    type V = AggSpecView;

    closed spec fn view(&self) -> AggSpecView {
        AggSpecView { default: self.default, by_name: entries_map(entry_views(self.by_name@)) }
    }
}

impl AggSpec {
    /// The OHLCV defaults: open=first, high=max, low=min, close=last,
    /// volume=sum; every other column falls back to `last`.
    pub fn ohlcv() -> (r: AggSpec)
        ensures
            r@.default == Agg::Last,
            r@.by_name == ohlcv_map(),
    {
        let mut by_name: Vec<(String, Agg)> = Vec::new();
        by_name.push(("open".to_owned(), Agg::First));
        by_name.push(("high".to_owned(), Agg::Max));
        by_name.push(("low".to_owned(), Agg::Min));
        by_name.push(("close".to_owned(), Agg::Last));
        by_name.push(("volume".to_owned(), Agg::Sum));
        let r = AggSpec { default: Agg::Last, by_name };
        proof {
            let e = entry_views(r.by_name@);
            reveal_with_fuel(entries_map, 6);
            assert(e.drop_last().drop_last().drop_last().drop_last().drop_last() =~= Seq::empty());
            assert(entries_map(e) =~= ohlcv_map());
        }
        r
    }

    /// Override (or add) a column's aggregator.
    pub fn set(&mut self, name: &str, agg: Agg)
        ensures
            final(self)@.default == old(self)@.default,
            final(self)@.by_name == old(self)@.by_name.insert(name@, agg),
    {
        let ghost before = self.by_name@;
        self.by_name.push((name.to_owned(), agg));
        proof {
            assert(entry_views(self.by_name@).drop_last() =~= entry_views(before));
        }
    }

    /// The aggregator for a column (the default if unset).
    pub fn agg_for(&self, name: &str) -> (r: Agg)
        ensures
            r == spec_agg_for(self@, name@),
    {
        let ghost e = entry_views(self.by_name@);
        let mut i: usize = self.by_name.len();
        assert(e.take(i as int) =~= e);
        while i > 0
            invariant
                e == entry_views(self.by_name@),
                i <= self.by_name.len(),
                entries_map(e).contains_key(name@) == entries_map(e.take(i as int)).contains_key(name@),
                entries_map(e).contains_key(name@) ==> entries_map(e)[name@] == entries_map(e.take(i as int))[name@],
            decreases i,
        {
            assert(e.take(i as int).drop_last() =~= e.take(i - 1));
            assert(e.take(i as int).last() == e[i - 1]);
            if same_text(self.by_name[i - 1].0.as_str(), name) {
                return self.by_name[i - 1].1;
            }
            i = i - 1;
        }
        assert(e.take(0) =~= Seq::<(Seq<char>, Agg)>::empty());
        self.default
    }
}

/// The assignment `m` with each `(column, aggregator name)` override applied
/// in order; `None` when some name is not an aggregator.
pub open spec fn apply_overrides(m: Map<Seq<char>, Agg>, ov: Seq<(Seq<char>, Seq<char>)>) -> Option<
    Map<Seq<char>, Agg>,
>
    decreases ov.len(),
{
    if ov.len() == 0 {
        Some(m)
    } else {
        match apply_overrides(m, ov.drop_last()) {
            Some(m2) => match spec_agg_from_name(ov.last().1) {
                Some(a) => Some(m2.insert(ov.last().0, a)),
                None => None,
            },
            None => None,
        }
    }
}

pub open spec fn pair_views(v: Seq<(String, String)>) -> Seq<(Seq<char>, Seq<char>)> {
    v.map_values(|p: (String, String)| (p.0@, p.1@))
}

/// Once an override fails, so does every longer list of overrides.
proof fn lemma_overrides_none(m: Map<Seq<char>, Agg>, ov: Seq<(Seq<char>, Seq<char>)>, j: int)
    requires
        0 <= j <= ov.len(),
        apply_overrides(m, ov.take(j)) is None,
    ensures
        apply_overrides(m, ov) is None,
    decreases ov.len(),
{
    if j == ov.len() {
        assert(ov.take(j) =~= ov);
    } else {
        assert(ov.drop_last().take(j) =~= ov.take(j));
        lemma_overrides_none(m, ov.drop_last(), j);
    }
}

/// The OHLCV spec with per-column overrides `(column, aggregator name)`
/// applied in order; an unknown aggregator name is a value error.
pub fn build_agg_spec(overrides: &Vec<(String, String)>) -> (r: Result<AggSpec, VolasError>)
    ensures
        match r {
            Ok(sp) => sp@.default == Agg::Last && apply_overrides(ohlcv_map(), pair_views(overrides@)) == Some(
                sp@.by_name,
            ),
            Err(e) => apply_overrides(ohlcv_map(), pair_views(overrides@)) is None && e is Value,
        },
{
    let mut spec = AggSpec::ohlcv();
    let ghost ov = pair_views(overrides@);
    let mut i: usize = 0;
    while i < overrides.len()
        invariant
            i <= overrides.len(),
            ov == pair_views(overrides@),
            spec@.default == Agg::Last,
            apply_overrides(ohlcv_map(), ov.take(i as int)) == Some(spec@.by_name),
        decreases overrides.len() - i,
    {
        assert(ov.take(i + 1).drop_last() =~= ov.take(i as int));
        assert(ov.take(i + 1).last() == (overrides@[i as int].0@, overrides@[i as int].1@));
        let agg = match Agg::from_name(overrides[i].1.as_str()) {
            Ok(a) => a,
            Err(e) => {
                proof {
                    lemma_overrides_none(ohlcv_map(), ov, i + 1);
                }
                return Err(e);
            },
        };
        spec.set(overrides[i].0.as_str(), agg);
        i = i + 1;
    }
    assert(ov.take(overrides.len() as int) =~= ov);
    Ok(spec)
}

/// Overriding a column's aggregator makes it that column's aggregator and
/// leaves every other column's aggregator as it was.
pub proof fn law_set_then_agg_for(v: AggSpecView, name: Seq<char>, agg: Agg, other: Seq<char>)
    ensures
        spec_agg_for(AggSpecView { default: v.default, by_name: v.by_name.insert(name, agg) }, name) == agg,
        other != name ==> spec_agg_for(AggSpecView { default: v.default, by_name: v.by_name.insert(name, agg) }, other)
            == spec_agg_for(v, other),
{
}

impl Default for AggSpec {
    fn default() -> (r: AggSpec)
        ensures
            r@.default == Agg::Last,
            r@.by_name == ohlcv_map(),
    {
        AggSpec::ohlcv()
    }
}

impl Clone for AggSpec {
    fn clone(&self) -> (r: AggSpec)
        ensures
            r@ == self@,
    {
        let mut by_name: Vec<(String, Agg)> = Vec::new();
        let mut i: usize = 0;
        while i < self.by_name.len()
            invariant
                i <= self.by_name.len(),
                entry_views(by_name@) =~= entry_views(self.by_name@).take(i as int),
            decreases self.by_name.len() - i,
        {
            let n = self.by_name[i].0.clone();
            let a = self.by_name[i].1;
            let ghost before = by_name@;
            by_name.push((n, a));
            assert(entry_views(by_name@) =~= entry_views(before).push((self.by_name@[i as int].0@, a)));
            i = i + 1;
            assert(entry_views(by_name@) =~= entry_views(self.by_name@).take(i as int));
        }
        assert(entry_views(self.by_name@).take(self.by_name.len() as int) =~= entry_views(self.by_name@));
        AggSpec { default: self.default, by_name }
    }
}

} // verus!
