//! Dropping and renaming columns, and dropping rows by label.

use vstd::prelude::*;
use crate::error::VolasError;
use crate::frame::{
    clone_texts, column_views, texts, Column, ColumnView, Frame, FrameView, Index, IndexKind,
    IndexKindView, IndexView,
};
use crate::agg::pair_views;
use crate::select::{as_bool_mask, ints, lemma_true_positions, true_positions};
use crate::time_frame::Tz;
use crate::text::same_text;

verus! {

/// The entries of `s` at positions `pos`, in that order.
pub open spec fn pick<A>(s: Seq<A>, pos: Seq<int>) -> Seq<A> {
    pos.map_values(|p: int| s[p])
}

/// The positions of the columns whose names are not in `drop`.
pub open spec fn kept_columns(names: Seq<Seq<char>>, drop: Seq<Seq<char>>) -> Seq<int> {
    true_positions(names.map_values(|n: Seq<char>| !drop.contains(n)))
}

/// A frame without the columns named in `drop`.
pub open spec fn spec_drop_columns(f: FrameView, drop: Seq<Seq<char>>) -> FrameView {
    let keep = kept_columns(f.names, drop);
    FrameView { names: pick(f.names, keep), columns: pick(f.columns, keep), index: f.index }
}

/// How a missing label is treated: `"raise"` makes it an error (`false`),
/// `"ignore"` skips it (`true`); anything else is a `Value` error.
pub fn parse_errors_mode(errors: &str) -> (r: Result<bool, VolasError>)
    ensures
        match r {
            Ok(ignore) => (errors@ == "raise"@ && !ignore) || (errors@ == "ignore"@ && ignore),
            Err(e) => errors@ != "raise"@ && errors@ != "ignore"@ && e is Value,
        },
{
    if same_text(errors, "raise") {
        Ok(false)
    } else if same_text(errors, "ignore") {
        Ok(true)
    } else {
        let mut m = "drop: errors must be 'raise' or 'ignore', got \"".to_owned();
        m.append(errors);
        m.append("\"");
        Err(VolasError::Value(m))
    }
}

/// A copy of a column.
pub fn copy_column(c: &Column) -> (r: Column)
    ensures
        r@ == c@,
{
    let r = c.slice(0, c.len());
    proof {
        let n = c@.len() as int;
        match c@ {
            ColumnView::I64(v) => assert(v.subrange(0, n) =~= v),
            ColumnView::Datetime(v) => assert(v.subrange(0, n) =~= v),
            ColumnView::Bool(v) => assert(v.subrange(0, n) =~= v),
            ColumnView::Str(v) => assert(v.subrange(0, n) =~= v),
        }
    }
    r
}

/// A copy of an index.
pub fn copy_index(ix: &Index) -> (r: Index)
    ensures
        r@ == ix@,
{
    let r = ix.slice(0, ix.len());
    proof {
        let n = ix@.kind.len() as int;
        match ix@.kind {
            IndexKindView::Range(m) => {},
            IndexKindView::Int64(v) => assert(v.subrange(0, n) =~= v),
            IndexKindView::Datetime(v, tz) => assert(v.subrange(0, n) =~= v),
            IndexKindView::Str(v) => assert(v.subrange(0, n) =~= v),
        }
    }
    r
}

/// Whether `name` is one of `names`.
pub fn contains_text(names: &Vec<String>, name: &str) -> (r: bool)
    ensures
        r == texts(names@).contains(name@),
{
    let mut j: usize = 0;
    while j < names.len()
        invariant
            j <= names@.len(),
            forall|k: int| 0 <= k < j ==> texts(names@)[k] != name@,
        decreases names.len() - j,
    {
        assert(texts(names@)[j as int] == names@[j as int]@);
        if same_text(names[j].as_str(), name) {
            return true;
        }
        j = j + 1;
    }
    assert(!texts(names@).contains(name@)) by {
        if texts(names@).contains(name@) {
            let k = choose|k: int| 0 <= k < texts(names@).len() && texts(names@)[k] == name@;
            assert(texts(names@)[k] != name@);
        }
    }
    false
}

/// The columns at `pos` (each a column of `f`) under their names, over the
/// index of `f`.
pub fn project_positions(f: &Frame, pos: &Vec<usize>) -> (r: Frame)
    requires
        f@.wf(),
        forall|k: int| 0 <= k < pos@.len() ==> pos@[k] < f@.columns.len(),
    ensures
        r@ == (FrameView { names: pick(f@.names, ints(pos@)), columns: pick(f@.columns, ints(pos@)), index: f@.index }),
        r@.wf(),
{
    let names = f.names();
    let columns = f.columns();
    let mut out_names: Vec<String> = Vec::new();
    let mut out_cols: Vec<Column> = Vec::new();
    let mut k: usize = 0;
    while k < pos.len()
        invariant
            f@.wf(),
            texts(names@) == f@.names,
            column_views(columns@) == f@.columns,
            forall|j: int| 0 <= j < pos@.len() ==> pos@[j] < f@.columns.len(),
            k <= pos@.len(),
            texts(out_names@) == pick(f@.names, ints(pos@.take(k as int))),
            column_views(out_cols@) == pick(f@.columns, ints(pos@.take(k as int))),
        decreases pos.len() - k,
    {
        let p = pos[k];
        assert(texts(names@)[p as int] == names@[p as int]@);
        assert(column_views(columns@)[p as int] == columns@[p as int]@);
        let ghost (bn, bc) = (out_names@, out_cols@);
        out_names.push(names[p].clone());
        out_cols.push(copy_column(&columns[p]));
        assert(texts(out_names@) =~= texts(bn).push(f@.names[p as int]));
        assert(column_views(out_cols@) =~= column_views(bc).push(f@.columns[p as int]));
        assert(ints(pos@.take(k + 1)) =~= ints(pos@.take(k as int)).push(p as int));
        k = k + 1;
        assert(texts(out_names@) =~= pick(f@.names, ints(pos@.take(k as int))));
        assert(column_views(out_cols@) =~= pick(f@.columns, ints(pos@.take(k as int))));
    }
    assert(pos@.take(k as int) =~= pos@);
    let ix = copy_index(f.index());
    let ghost want = FrameView { names: pick(f@.names, ints(pos@)), columns: pick(f@.columns, ints(pos@)), index: f@.index };
    assert forall|j: int| 0 <= j < out_cols@.len() implies #[trigger] out_cols@[j]@.len() == ix@.kind.len() by {
        assert(column_views(out_cols@)[j] == out_cols@[j]@);
        assert(f@.columns[pos@[j] as int].len() == f@.index.kind.len());
    }
    match Frame::new(out_names, out_cols, Some(ix)) {
        Ok(g) => g,
        Err(_) => {
            proof {
                assert(false);
            }
            f.duplicate()
        },
    }
}

impl Frame {
    /// The frame without the columns named in `drop`. With `errors` `"raise"`
    /// a name that is not a column is a `Key` error; with `"ignore"` it is
    /// skipped; any other `errors` is a `Value` error.
    pub fn drop_columns(&self, drop: &Vec<String>, errors: &str) -> (r: Result<Frame, VolasError>)
        requires
            self@.wf(),
        ensures
            match r {
                Ok(g) => (errors@ == "ignore"@ || (errors@ == "raise"@ && forall|k: int|
                    0 <= k < drop@.len() ==> self@.names.contains(#[trigger] texts(drop@)[k])))
                    && g@ == spec_drop_columns(self@, texts(drop@)) && g@.wf(),
                Err(e) => (errors@ != "raise"@ && errors@ != "ignore"@ && e is Value) || (errors@ == "raise"@
                    && (exists|k: int| 0 <= k < drop@.len() && !self@.names.contains(#[trigger] texts(drop@)[k]))
                    && e is Key),
            },
    {
        let ignore = parse_errors_mode(errors)?;
        let names = self.names();
        proof {
            reveal_strlit("raise");
            reveal_strlit("ignore");
        }
        if !ignore {
            let mut k: usize = 0;
            while k < drop.len()
                invariant
                    texts(names@) == self@.names,
                    errors@ == "raise"@,
                    k <= drop@.len(),
                    forall|j: int| 0 <= j < k ==> self@.names.contains(#[trigger] texts(drop@)[j]),
                decreases drop.len() - k,
            {
                assert(texts(drop@)[k as int] == drop@[k as int]@);
                if !contains_text(names, drop[k].as_str()) {
                    assert(!self@.names.contains(texts(drop@)[k as int]));
                    let mut m = "[\"".to_owned();
                    m.append(drop[k].as_str());
                    m.append("\"] not found in axis");
                    return Err(VolasError::Key(m));
                }
                k = k + 1;
            }
        }
        let ghost dv = texts(drop@);
        let ghost want = self@.names.map_values(|n: Seq<char>| !dv.contains(n));
        let mut bits: Vec<bool> = Vec::new();
        let mut j: usize = 0;
        while j < names.len()
            invariant
                texts(names@) == self@.names,
                dv == texts(drop@),
                want == self@.names.map_values(|n: Seq<char>| !dv.contains(n)),
                j <= names@.len(),
                bits@ == want.take(j as int),
            decreases names.len() - j,
        {
            assert(texts(names@)[j as int] == names@[j as int]@);
            let c = contains_text(drop, names[j].as_str());
            bits.push(!c);
            j = j + 1;
            assert(bits@ =~= want.take(j as int));
        }
        assert(bits@ =~= want);
        let pos = match as_bool_mask(&bits, names.len()) {
            Some(p) => p,
            None => Vec::new(),
        };
        proof {
            lemma_true_positions(want);
            assert forall|k: int| 0 <= k < pos@.len() implies pos@[k] < self@.columns.len() by {
                assert(ints(pos@)[k] == true_positions(want)[k]);
            }
        }
        Ok(project_positions(self, &pos))
    }
}

/// The new name of a column called `n` under `mapping`: the last pair whose
/// first name is `n` gives it; a name no pair mentions is kept.
pub open spec fn renamed(n: Seq<char>, mapping: Seq<(Seq<char>, Seq<char>)>) -> Seq<char>
    decreases mapping.len(),
{
    if mapping.len() == 0 {
        n
    } else if mapping.last().0 == n {
        mapping.last().1
    } else {
        renamed(n, mapping.drop_last())
    }
}

/// Renaming looks a name up once: a name that no pair starts with is kept,
/// and otherwise it becomes the second name of the last pair that starts
/// with it; the new name is never looked up again (so two names can be
/// swapped).
pub proof fn law_rename_single_lookup(n: Seq<char>, mapping: Seq<(Seq<char>, Seq<char>)>)
    ensures
        (forall|k: int| 0 <= k < mapping.len() ==> #[trigger] mapping[k].0 != n) ==> renamed(n, mapping) == n,
        (exists|k: int| 0 <= k < mapping.len() && #[trigger] mapping[k].0 == n) ==> exists|k: int|
            0 <= k < mapping.len() && #[trigger] mapping[k].0 == n && renamed(n, mapping) == mapping[k].1 && forall|j: int|
                k < j < mapping.len() ==> #[trigger] mapping[j].0 != n,
    decreases mapping.len(),
{
    if mapping.len() > 0 {
        let init = mapping.drop_last();
        law_rename_single_lookup(n, init);
        let last = mapping.len() - 1;
        if mapping.last().0 == n {
            assert(mapping[last].0 == n);
        } else {
            assert forall|k: int| 0 <= k < init.len() implies #[trigger] init[k] == mapping[k] by {}
            if forall|k: int| 0 <= k < mapping.len() ==> #[trigger] mapping[k].0 != n {
                assert forall|k: int| 0 <= k < init.len() implies #[trigger] init[k].0 != n by {
                    assert(init[k] == mapping[k]);
                }
            }
            if exists|k: int| 0 <= k < mapping.len() && #[trigger] mapping[k].0 == n {
                let k0 = choose|k: int| 0 <= k < mapping.len() && #[trigger] mapping[k].0 == n;
                assert(k0 != last);
                assert(init[k0].0 == n);
                let k1 = choose|k: int|
                    0 <= k < init.len() && #[trigger] init[k].0 == n && renamed(n, init) == init[k].1 && forall|j: int|
                        k < j < init.len() ==> #[trigger] init[j].0 != n;
                assert(mapping[k1] == init[k1]);
                assert forall|j: int| k1 < j < mapping.len() implies #[trigger] mapping[j].0 != n by {
                    if j < init.len() {
                        assert(init[j] == mapping[j]);
                    }
                }
            }
        }
    }
}

/// Every name renamed under `mapping`.
pub open spec fn renamed_all(names: Seq<Seq<char>>, mapping: Seq<(Seq<char>, Seq<char>)>) -> Seq<Seq<char>> {
    names.map_values(|n: Seq<char>| renamed(n, mapping))
}

/// A row label: an integer (also a position or an instant in nanoseconds) or
/// a text.
#[derive(Debug, Clone)]
pub enum Label {
    I64(i64),
    Str(String),
}

pub enum LabelView {
    I64(i64),
    Str(Seq<char>),
}

impl View for Label {
    type V = LabelView;

    open spec fn view(&self) -> LabelView {
        match self {
            Label::I64(v) => LabelView::I64(*v),
            Label::Str(s) => LabelView::Str(s@),
        }
    }
}

/// The label of row `i`: its position for a range index.
pub open spec fn label_at(kind: IndexKindView, i: int) -> LabelView {
    match kind {
        IndexKindView::Range(_) => LabelView::I64(i as i64),
        IndexKindView::Int64(v) => LabelView::I64(v[i]),
        IndexKindView::Datetime(v, _) => LabelView::I64(v[i]),
        IndexKindView::Str(v) => LabelView::Str(v[i]),
    }
}

/// The labels of all rows.
pub open spec fn row_labels(kind: IndexKindView) -> Seq<LabelView> {
    Seq::new(kind.len(), |i: int| label_at(kind, i))
}

/// The labels at `pos`; a range index becomes an integer index of the
/// positions taken.
pub open spec fn index_take(kind: IndexKindView, pos: Seq<usize>) -> IndexKindView {
    match kind {
        IndexKindView::Range(_) => IndexKindView::Int64(pos.map_values(|p: usize| p as i64)),
        IndexKindView::Int64(v) => IndexKindView::Int64(pos.map_values(|p: usize| v[p as int])),
        IndexKindView::Datetime(v, tz) => IndexKindView::Datetime(pos.map_values(|p: usize| v[p as int]), tz),
        IndexKindView::Str(v) => IndexKindView::Str(pos.map_values(|p: usize| v[p as int])),
    }
}

/// The rows at `pos` of a frame, in that order.
pub open spec fn frame_take(f: FrameView, pos: Seq<usize>) -> FrameView {
    FrameView {
        names: f.names,
        columns: f.columns.map_values(|c: ColumnView| c.take(pos)),
        index: IndexView { kind: index_take(f.index.kind, pos), name: f.index.name },
    }
}

/// The rows whose labels are not in `targets`.
pub open spec fn kept_rows(kind: IndexKindView, targets: Seq<LabelView>) -> Seq<usize> {
    true_positions(row_labels(kind).map_values(|l: LabelView| !targets.contains(l))).map_values(|p: int| p as usize)
}

/// Labels as plain values.
pub open spec fn label_views(v: Seq<Label>) -> Seq<LabelView> {
    v.map_values(|l: Label| l@)
}

/// Whether two labels are equal.
pub fn label_eq(a: &Label, b: &Label) -> (r: bool)
    ensures
        r == (a@ == b@),
{
    match (a, b) {
        (Label::I64(x), Label::I64(y)) => *x == *y,
        (Label::Str(x), Label::Str(y)) => same_text(x.as_str(), y.as_str()),
        _ => false,
    }
}

impl Index {
    /// The label of row `i`.
    pub fn label_at(&self, i: usize) -> (r: Label)
        requires
            i < self@.kind.len(),
            i <= i64::MAX,
        ensures
            r@ == label_at(self@.kind, i as int),
    {
        match &self.kind {
            IndexKind::Range(_) => Label::I64(i as i64),
            IndexKind::Int64(v) => Label::I64(v[i]),
            IndexKind::Datetime(v, _) => Label::I64(v[i]),
            IndexKind::Str(v) => {
                assert(texts(v@)[i as int] == v@[i as int]@);
                Label::Str(v[i].clone())
            },
        }
    }

    /// The labels at `pos`, keeping the name (see [`index_take`]).
    pub fn take(&self, pos: &Vec<usize>) -> (r: Index)
        requires
            forall|k: int| 0 <= k < pos@.len() ==> pos@[k] < self@.kind.len(),
            forall|k: int| 0 <= k < pos@.len() ==> pos@[k] <= i64::MAX,
        ensures
            r@ == (IndexView { kind: index_take(self@.kind, pos@), name: self@.name }),
    {
        let kind = match &self.kind {
            IndexKind::Range(_) => {
                let mut out: Vec<i64> = Vec::new();
                let mut k: usize = 0;
                while k < pos.len()
                    invariant
                        k <= pos@.len(),
                        forall|j: int| 0 <= j < pos@.len() ==> pos@[j] <= i64::MAX,
                        out@ == pos@.take(k as int).map_values(|p: usize| p as i64),
                    decreases pos.len() - k,
                {
                    out.push(pos[k] as i64);
                    k = k + 1;
                    assert(out@ =~= pos@.take(k as int).map_values(|p: usize| p as i64));
                }
                assert(pos@.take(k as int) =~= pos@);
                IndexKind::Int64(out)
            },
            IndexKind::Int64(v) => {
                let c = Column::I64(copy_i64s(v)).take(pos);
                match c {
                    Column::I64(w) => IndexKind::Int64(w),
                    _ => IndexKind::Int64(Vec::new()),
                }
            },
            IndexKind::Datetime(v, tz) => {
                let c = Column::I64(copy_i64s(v)).take(pos);
                match c {
                    Column::I64(w) => IndexKind::Datetime(w, *tz),
                    _ => IndexKind::Int64(Vec::new()),
                }
            },
            IndexKind::Str(v) => {
                let c = Column::Str(clone_texts(v)).take(pos);
                match c {
                    Column::Str(w) => IndexKind::Str(w),
                    _ => IndexKind::Int64(Vec::new()),
                }
            },
        };
        Index { kind, name: self.name.clone() }
    }
}

fn copy_i64s(v: &Vec<i64>) -> (r: Vec<i64>)
    ensures
        r@ == v@,
{
    let mut r: Vec<i64> = Vec::new();
    let mut i: usize = 0;
    while i < v.len()
        invariant
            i <= v@.len(),
            r@ == v@.take(i as int),
        decreases v.len() - i,
    {
        r.push(v[i]);
        i = i + 1;
        assert(r@ =~= v@.take(i as int));
    }
    assert(v@.take(i as int) =~= v@);
    r
}

fn renamed_one(name: &String, mapping: &Vec<(String, String)>) -> (r: String)
    ensures
        r@ == renamed(name@, pair_views(mapping@)),
{
    let ghost pv = pair_views(mapping@);
    let mut i: usize = mapping.len();
    assert(pv.take(i as int) =~= pv);
    while i > 0
        invariant
            i <= mapping@.len(),
            pv == pair_views(mapping@),
            renamed(name@, pv) == renamed(name@, pv.take(i as int)),
        decreases i,
    {
        assert(pv[i - 1] == (mapping@[i - 1].0@, mapping@[i - 1].1@));
        if same_text(mapping[i - 1].0.as_str(), name.as_str()) {
            return mapping[i - 1].1.clone();
        }
        assert(pv.take(i as int).drop_last() =~= pv.take(i - 1));
        i = i - 1;
    }
    name.clone()
}

impl Frame {
    /// The rows at `pos`, in that order (see [`frame_take`]).
    pub fn take(&self, pos: &Vec<usize>) -> (r: Frame)
        requires
            self@.wf(),
            forall|k: int| 0 <= k < pos@.len() ==> pos@[k] < self@.height(),
            forall|k: int| 0 <= k < pos@.len() ==> pos@[k] <= i64::MAX,
        ensures
            r@ == frame_take(self@, pos@),
            r@.wf(),
    {
        let names = clone_texts(self.names());
        let columns = self.columns();
        let mut out: Vec<Column> = Vec::new();
        let mut j: usize = 0;
        while j < columns.len()
            invariant
                self@.wf(),
                column_views(columns@) == self@.columns,
                forall|k: int| 0 <= k < pos@.len() ==> pos@[k] < self@.height(),
                j <= columns@.len(),
                column_views(out@) == self@.columns.take(j as int).map_values(|c: ColumnView| c.take(pos@)),
            decreases columns.len() - j,
        {
            assert(column_views(columns@)[j as int] == columns@[j as int]@);
            assert(self@.columns[j as int].len() == self@.height());
            let ghost before = out@;
            out.push(columns[j].take(pos));
            assert(column_views(out@) =~= column_views(before).push(self@.columns[j as int].take(pos@)));
            assert(self@.columns.take(j + 1) =~= self@.columns.take(j as int).push(self@.columns[j as int]));
            j = j + 1;
            assert(column_views(out@) =~= self@.columns.take(j as int).map_values(|c: ColumnView| c.take(pos@)));
        }
        assert(self@.columns.take(j as int) =~= self@.columns);
        let ix = self.index().take(pos);
        proof {
            assert forall|k: int| 0 <= k < out@.len() implies #[trigger] out@[k]@.len() == ix@.kind.len() by {
                assert(column_views(out@)[k] == out@[k]@);
            }
        }
        let ghost want = frame_take(self@, pos@);
        match Frame::new(names, out, Some(ix)) {
            Ok(g) => {
                assert(g@.names =~= want.names);
                assert(g@.columns =~= want.columns);
                g
            },
            Err(_) => {
                proof {
                    assert(false);
                }
                self.duplicate()
            },
        }
    }

    /// The frame with its columns renamed under `mapping` (pairs of old and
    /// new name; a later pair for the same old name wins). A rename that would
    /// leave two columns with one name is a `Value` error.
    pub fn rename(&self, mapping: &Vec<(String, String)>) -> (r: Result<Frame, VolasError>)
        requires
            self@.wf(),
        ensures
            match r {
                Ok(g) => renamed_all(self@.names, pair_views(mapping@)).no_duplicates() && g@ == (FrameView {
                    names: renamed_all(self@.names, pair_views(mapping@)),
                    columns: self@.columns,
                    index: self@.index,
                }),
                Err(e) => !renamed_all(self@.names, pair_views(mapping@)).no_duplicates() && e is Value,
            },
    {
        let names = self.names();
        let ghost want = renamed_all(self@.names, pair_views(mapping@));
        let mut out: Vec<String> = Vec::new();
        let mut i: usize = 0;
        while i < names.len()
            invariant
                texts(names@) == self@.names,
                want == renamed_all(self@.names, pair_views(mapping@)),
                i <= names@.len(),
                texts(out@) == want.take(i as int),
            decreases names.len() - i,
        {
            assert(texts(names@)[i as int] == names@[i as int]@);
            let ghost before = out@;
            out.push(renamed_one(&names[i], mapping));
            assert(texts(out@) =~= texts(before).push(want[i as int]));
            i = i + 1;
            assert(texts(out@) =~= want.take(i as int));
        }
        assert(texts(out@) =~= want);
        let mut a: usize = 0;
        while a < out.len()
            invariant
                texts(out@) == want,
                want == renamed_all(self@.names, pair_views(mapping@)),
                a <= out@.len(),
                forall|x: int, y: int| 0 <= x < a && x < y < want.len() ==> want[x] != want[y],
            decreases out.len() - a,
        {
            let mut b: usize = a + 1;
            while b < out.len()
                invariant
                    texts(out@) == want,
                    want == renamed_all(self@.names, pair_views(mapping@)),
                    a < out@.len(),
                    a + 1 <= b <= out@.len(),
                    forall|x: int, y: int| 0 <= x < a && x < y < want.len() ==> want[x] != want[y],
                    forall|y: int| a < y < b ==> want[a as int] != want[y],
                decreases out.len() - b,
            {
                assert(texts(out@)[a as int] == out@[a as int]@);
                assert(texts(out@)[b as int] == out@[b as int]@);
                if same_text(out[a].as_str(), out[b].as_str()) {
                    assert(want[a as int] == want[b as int]);
                    assert(!want.no_duplicates());
                    let mut m = "rename would produce duplicate column \"".to_owned();
                    m.append(out[a].as_str());
                    m.append("\"");
                    return Err(VolasError::Value(m));
                }
                b = b + 1;
            }
            a = a + 1;
        }
        let columns = self.columns();
        let mut cols: Vec<Column> = Vec::new();
        let mut j: usize = 0;
        while j < columns.len()
            invariant
                column_views(columns@) == self@.columns,
                j <= columns@.len(),
                column_views(cols@) == self@.columns.take(j as int),
            decreases columns.len() - j,
        {
            assert(column_views(columns@)[j as int] == columns@[j as int]@);
            let ghost before = cols@;
            cols.push(copy_column(&columns[j]));
            assert(column_views(cols@) =~= column_views(before).push(self@.columns[j as int]));
            j = j + 1;
            assert(column_views(cols@) =~= self@.columns.take(j as int));
        }
        assert(self@.columns.take(j as int) =~= self@.columns);
        let ix = copy_index(self.index());
        proof {
            assert forall|k: int| 0 <= k < cols@.len() implies #[trigger] cols@[k]@.len() == ix@.kind.len() by {
                assert(column_views(cols@)[k] == cols@[k]@);
            }
        }
        match Frame::new(out, cols, Some(ix)) {
            Ok(g) => Ok(g),
            Err(_) => {
                proof {
                    assert(false);
                }
                Ok(self.duplicate())
            },
        }
    }

    /// The frame without the rows labelled by `labels`. With `errors`
    /// `"raise"` a label that is not in the index is a `Key` error; with
    /// `"ignore"` it is skipped; any other `errors` is a `Value` error.
    pub fn drop_rows(&self, labels: &Vec<Label>, errors: &str) -> (r: Result<Frame, VolasError>)
        requires
            self@.wf(),
            self@.height() <= i64::MAX,
        ensures
            match r {
                Ok(g) => (errors@ == "ignore"@ || (errors@ == "raise"@ && forall|k: int|
                    0 <= k < labels@.len() ==> row_labels(self@.index.kind).contains(#[trigger] label_views(labels@)[k])))
                    && g@ == frame_take(self@, kept_rows(self@.index.kind, label_views(labels@))) && g@.wf(),
                Err(e) => (errors@ != "raise"@ && errors@ != "ignore"@ && e is Value) || (errors@ == "raise"@
                    && (exists|k: int| 0 <= k < labels@.len() && !row_labels(self@.index.kind).contains(#[trigger] label_views(labels@)[k]))
                    && e is Key),
            },
    {
        let ignore = parse_errors_mode(errors)?;
        proof {
            reveal_strlit("raise");
            reveal_strlit("ignore");
        }
        let n = self.height();
        let index = self.index();
        let ghost rl = row_labels(self@.index.kind);
        let ghost tv = label_views(labels@);
        if !ignore {
            let mut k: usize = 0;
            while k < labels.len()
                invariant
                    errors@ == "raise"@,
                    n == self@.height(),
                    n <= i64::MAX,
                    index@ == self@.index,
                    rl == row_labels(self@.index.kind),
                    tv == label_views(labels@),
                    k <= labels@.len(),
                    forall|j: int| 0 <= j < k ==> rl.contains(#[trigger] tv[j]),
                decreases labels.len() - k,
            {
                let mut found = false;
                let mut i: usize = 0;
                while i < n
                    invariant
                        n == self@.height(),
                        n <= i64::MAX,
                        index@ == self@.index,
                        rl == row_labels(self@.index.kind),
                        tv == label_views(labels@),
                        k < labels@.len(),
                        i <= n,
                        found ==> rl.contains(tv[k as int]),
                        !found ==> forall|j: int| 0 <= j < i ==> rl[j] != tv[k as int],
                    decreases n - i,
                {
                    let l = index.label_at(i);
                    assert(rl[i as int] == l@);
                    if label_eq(&l, &labels[k]) {
                        found = true;
                    }
                    i = i + 1;
                }
                if !found {
                    assert(!rl.contains(tv[k as int])) by {
                        if rl.contains(tv[k as int]) {
                            let j = choose|j: int| 0 <= j < rl.len() && rl[j] == tv[k as int];
                            assert(rl[j] != tv[k as int]);
                        }
                    }
                    return Err(VolasError::Key("label not found in axis".to_owned()));
                }
                k = k + 1;
            }
        }
        let ghost want = rl.map_values(|l: LabelView| !tv.contains(l));
        let mut bits: Vec<bool> = Vec::new();
        let mut i: usize = 0;
        while i < n
            invariant
                n == self@.height(),
                n <= i64::MAX,
                index@ == self@.index,
                rl == row_labels(self@.index.kind),
                tv == label_views(labels@),
                want == rl.map_values(|l: LabelView| !tv.contains(l)),
                i <= n,
                bits@ == want.take(i as int),
            decreases n - i,
        {
            let l = index.label_at(i);
            let mut hit = false;
            let mut k: usize = 0;
            while k < labels.len()
                invariant
                    tv == label_views(labels@),
                    k <= labels@.len(),
                    hit == tv.take(k as int).contains(l@),
                decreases labels.len() - k,
            {
                let ghost t0 = tv.take(k as int);
                let ghost t1 = tv.take(k + 1);
                assert(t1 =~= t0.push(tv[k as int]));
                assert(tv[k as int] == labels@[k as int]@);
                if label_eq(&l, &labels[k]) {
                    hit = true;
                }
                proof {
                    if t1.contains(l@) && !t0.contains(l@) {
                        let j = choose|j: int| 0 <= j < t1.len() && t1[j] == l@;
                        if j < k {
                            assert(t0[j] == l@);
                        }
                    }
                    if t0.contains(l@) {
                        let j = choose|j: int| 0 <= j < t0.len() && t0[j] == l@;
                        assert(t1[j] == l@);
                    }
                    if tv[k as int] == l@ {
                        assert(t1[k as int] == l@);
                    }
                }
                k = k + 1;
            }
            assert(tv.take(k as int) =~= tv);
            bits.push(!hit);
            i = i + 1;
            assert(bits@ =~= want.take(i as int));
        }
        assert(bits@ =~= want);
        let pos = match as_bool_mask(&bits, n) {
            Some(p) => p,
            None => Vec::new(),
        };
        proof {
            lemma_true_positions(want);
            assert(pos@ =~= kept_rows(self@.index.kind, tv)) by {
                assert forall|k: int| 0 <= k < pos@.len() implies pos@[k] == true_positions(want)[k] as usize by {
                    assert(ints(pos@)[k] == true_positions(want)[k]);
                }
            }
            assert forall|k: int| 0 <= k < pos@.len() implies pos@[k] < self@.height() by {
                assert(ints(pos@)[k] == true_positions(want)[k]);
            }
        }
        Ok(self.take(&pos))
    }
}

/// After dropping columns, no remaining column has a dropped name, and the
/// remaining columns are exactly the others, in their order.
pub proof fn law_drop_columns_removes(f: FrameView, drop: Seq<Seq<char>>)
    ensures
        forall|k: int| 0 <= k < spec_drop_columns(f, drop).names.len() ==> !drop.contains(
            #[trigger] spec_drop_columns(f, drop).names[k],
        ),
        forall|j: int| 0 <= j < f.names.len() && !drop.contains(f.names[j]) ==> #[trigger] kept_columns(
            f.names,
            drop,
        ).contains(j),
{
    let bits = f.names.map_values(|n: Seq<char>| !drop.contains(n));
    lemma_true_positions(bits);
    let keep = kept_columns(f.names, drop);
    assert forall|k: int| 0 <= k < spec_drop_columns(f, drop).names.len() implies !drop.contains(
        #[trigger] spec_drop_columns(f, drop).names[k],
    ) by {
        assert(bits[keep[k]]);
    }
    assert forall|j: int| 0 <= j < f.names.len() && !drop.contains(f.names[j]) implies #[trigger] kept_columns(
        f.names,
        drop,
    ).contains(j) by {
        assert(bits[j]);
    }
}

/// After dropping rows by label, no remaining row carries a dropped label.
pub proof fn law_drop_rows_removes(kind: IndexKindView, targets: Seq<LabelView>)
    requires
        kind.len() <= usize::MAX,
    ensures
        forall|k: int| 0 <= k < kept_rows(kind, targets).len() ==> !targets.contains(
            #[trigger] row_labels(index_take(kind, kept_rows(kind, targets)))[k],
        ),
{
    let rl = row_labels(kind);
    let bits = rl.map_values(|l: LabelView| !targets.contains(l));
    lemma_true_positions(bits);
    let tp = true_positions(bits);
    let keep = kept_rows(kind, targets);
    assert forall|k: int| 0 <= k < keep.len() implies !targets.contains(
        #[trigger] row_labels(index_take(kind, keep))[k],
    ) by {
        assert(bits[tp[k]]);
        assert(keep[k] as int == tp[k]);
        assert(row_labels(index_take(kind, keep))[k] == rl[tp[k]]);
    }
}

/// Rows appended to `target` may leave out some of its columns but must not
/// bring a column it lacks: a `Value` error names the first such column of
/// `src`.
pub fn require_no_new_columns(target: &Frame, src: &Frame) -> (r: Result<(), VolasError>)
    ensures
        match r {
            Ok(()) => forall|k: int| 0 <= k < src@.names.len() ==> target@.names.contains(#[trigger] src@.names[k]),
            Err(e) => (exists|k: int| 0 <= k < src@.names.len() && !target@.names.contains(#[trigger] src@.names[k]))
                && e is Value,
        },
{
    let tn = target.names();
    let sn = src.names();
    let mut k: usize = 0;
    while k < sn.len()
        invariant
            texts(tn@) == target@.names,
            texts(sn@) == src@.names,
            k <= sn@.len(),
            forall|j: int| 0 <= j < k ==> target@.names.contains(#[trigger] src@.names[j]),
        decreases sn.len() - k,
    {
        assert(texts(sn@)[k as int] == sn@[k as int]@);
        if !contains_text(tn, sn[k].as_str()) {
            assert(!target@.names.contains(src@.names[k as int]));
            let mut m = "append: column \"".to_owned();
            m.append(sn[k].as_str());
            m.append("\" is not in the target frame; appended rows must not introduce a new column");
            return Err(VolasError::Value(m));
        }
        k = k + 1;
    }
    Ok(())
}

/// Whether the keys of a one-bar record fit the frame: a labelled (not
/// range) index must be named and its name is the key of the bar's label;
/// every other key names a column, and every column and the label key are
/// given.
pub open spec fn bar_keys_ok(f: FrameView, keys: Seq<Seq<char>>) -> bool {
    let labeled = !(f.index.kind is Range);
    &&& labeled ==> f.index.name is Some
    &&& forall|k: int| 0 <= k < keys.len() ==> (labeled && Some(#[trigger] keys[k]) == f.index.name) || f.names.contains(keys[k])
    &&& forall|j: int| 0 <= j < f.names.len() ==> keys.contains(#[trigger] f.names[j])
    &&& labeled ==> keys.contains(f.index.name.unwrap())
}

/// Check the keys of a one-bar record (a `dict` appended as a row) against
/// the frame (see [`bar_keys_ok`]); any misfit is a `Value` error.
pub fn check_bar_keys(f: &Frame, keys: &Vec<String>) -> (r: Result<(), VolasError>)
    ensures
        r is Ok <==> bar_keys_ok(f@, texts(keys@)),
        r matches Err(e) ==> e is Value,
{
    let ix = f.index();
    let labeled = match &ix.kind {
        IndexKind::Range(_) => false,
        _ => true,
    };
    let idx_name: Option<&String> = if labeled {
        match &ix.name {
            Some(n) => Some(n),
            None => {
                return Err(VolasError::Value(
                    "append(dict): the frame's index is unnamed; name it so a bar's label has a key".to_owned(),
                ));
            },
        }
    } else {
        None
    };
    let names = f.names();
    let ghost kv = texts(keys@);
    let mut k: usize = 0;
    while k < keys.len()
        invariant
            texts(names@) == f@.names,
            ix@ == f@.index,
            labeled == !(f@.index.kind is Range),
            labeled ==> idx_name is Some && f@.index.name == Some(idx_name.unwrap()@),
            !labeled ==> idx_name is None,
            kv == texts(keys@),
            k <= keys@.len(),
            forall|q: int| 0 <= q < k ==> (labeled && Some(#[trigger] kv[q]) == f@.index.name) || f@.names.contains(kv[q]),
        decreases keys.len() - k,
    {
        assert(kv[k as int] == keys@[k as int]@);
        let is_index_key = match idx_name {
            Some(n) => same_text(n.as_str(), keys[k].as_str()),
            None => false,
        };
        if !is_index_key && !contains_text(names, keys[k].as_str()) {
            let mut m = "append(dict): unknown key \"".to_owned();
            m.append(keys[k].as_str());
            m.append("\", not a column of the frame nor its index");
            return Err(VolasError::Value(m));
        }
        k = k + 1;
    }
    let mut j: usize = 0;
    while j < names.len()
        invariant
            texts(names@) == f@.names,
            kv == texts(keys@),
            j <= names@.len(),
            forall|q: int| 0 <= q < j ==> kv.contains(#[trigger] f@.names[q]),
        decreases names.len() - j,
    {
        assert(texts(names@)[j as int] == names@[j as int]@);
        if !contains_text(keys, names[j].as_str()) {
            let mut m = "append(dict): missing column \"".to_owned();
            m.append(names[j].as_str());
            m.append("\"; every data column must be provided");
            return Err(VolasError::Value(m));
        }
        j = j + 1;
    }
    match idx_name {
        Some(n) => {
            if !contains_text(keys, n.as_str()) {
                return Err(VolasError::Value("append(dict): missing index key (the bar's label)".to_owned()));
            }
        },
        None => {},
    }
    Ok(())
}

/// The labels of an index as a column: the positions of a range index, the
/// integers, the instants (without their zone) or the texts.
pub open spec fn index_column(kind: IndexKindView) -> ColumnView {
    match kind {
        IndexKindView::Range(n) => ColumnView::I64(Seq::new(n, |i: int| i as i64)),
        IndexKindView::Int64(v) => ColumnView::I64(v),
        IndexKindView::Datetime(v, _) => ColumnView::Datetime(v),
        IndexKindView::Str(v) => ColumnView::Str(v),
    }
}

/// The index's name, or `index` when it has none.
pub open spec fn index_label(name: Option<Seq<char>>) -> Seq<char> {
    match name {
        Some(n) => n,
        None => "index"@,
    }
}

/// The value a column holds at row `i`, read as a row label (a boolean
/// column holds no label and reads as `0`).
pub open spec fn cell_label(c: ColumnView, i: int) -> LabelView {
    match c {
        ColumnView::I64(v) => LabelView::I64(v[i]),
        ColumnView::Datetime(v) => LabelView::I64(v[i]),
        ColumnView::Str(v) => LabelView::Str(v[i]),
        ColumnView::Bool(_) => LabelView::I64(0),
    }
}

/// Resetting an index keeps its labels: the column made of an index has one
/// row per label, and row `i` holds the label of row `i` (the position for
/// a range index, the integer, instant or text otherwise), never anything
/// else.
pub proof fn law_index_column_keeps_labels(kind: IndexKindView)
    ensures
        index_column(kind).len() == kind.len(),
        forall|i: int| 0 <= i < kind.len() ==> #[trigger] cell_label(index_column(kind), i) == label_at(kind, i),
        kind is Str ==> index_column(kind) is Str,
        kind is Datetime ==> index_column(kind) is Datetime,
        (kind is Int64 || kind is Range) ==> index_column(kind) is I64,
{
}

impl Index {
    /// The labels as a column (see [`index_column`]).
    pub fn to_column(&self) -> (r: Column)
        requires
            self@.kind.len() <= i64::MAX,
        ensures
            r@ == index_column(self@.kind),
    {
        match &self.kind {
            IndexKind::Range(n) => {
                let mut v: Vec<i64> = Vec::new();
                let mut i: usize = 0;
                while i < *n
                    invariant
                        *n <= i64::MAX,
                        i <= *n,
                        v@ == Seq::new(i as nat, |k: int| k as i64),
                    decreases *n - i,
                {
                    v.push(i as i64);
                    i = i + 1;
                    assert(v@ =~= Seq::new(i as nat, |k: int| k as i64));
                }
                Column::I64(v)
            },
            IndexKind::Int64(v) => Column::I64(copy_i64s(v)),
            IndexKind::Datetime(v, _) => Column::Datetime(copy_i64s(v)),
            IndexKind::Str(v) => Column::Str(clone_texts(v)),
        }
    }
}

impl Frame {
    /// Restore a range index. Unless `drop`, the old labels become the first
    /// column, named after the index (or `index`); a column of that name
    /// already there is a `Value` error.
    pub fn reset_index(&self, drop: bool) -> (r: Result<Frame, VolasError>)
        requires
            self@.wf(),
            self@.height() <= i64::MAX,
        ensures
            match r {
                Ok(g) => g@.wf() && g@.index == (IndexView { kind: IndexKindView::Range(self@.height()), name: None })
                    && if drop {
                    g@.names == self@.names && g@.columns == self@.columns
                } else {
                    !self@.names.contains(index_label(self@.index.name)) && g@.names == seq![
                        index_label(self@.index.name),
                    ] + self@.names && g@.columns == seq![index_column(self@.index.kind)] + self@.columns
                },
                Err(e) => !drop && self@.names.contains(index_label(self@.index.name)) && e is Value,
            },
    {
        let h = self.height();
        let names = self.names();
        let cols = self.columns();
        let mut out_names: Vec<String> = Vec::new();
        let mut out_cols: Vec<Column> = Vec::new();
        if !drop {
            let label: String = match &self.index().name {
                Some(n) => n.clone(),
                None => {
                    proof {
                        reveal_strlit("index");
                    }
                    "index".to_owned()
                },
            };
            assert(label@ == index_label(self@.index.name));
            if contains_text(names, label.as_str()) {
                let mut m = "reset_index: column name \"".to_owned();
                m.append(label.as_str());
                m.append("\" already exists (would duplicate)");
                return Err(VolasError::Value(m));
            }
            out_names.push(label);
            out_cols.push(self.index().to_column());
        }
        let ghost (n0, c0) = (out_names@, out_cols@);
        let mut j: usize = 0;
        while j < names.len()
            invariant
                self@.wf(),
                texts(names@) == self@.names,
                column_views(cols@) == self@.columns,
                j <= names@.len(),
                texts(out_names@) == texts(n0) + self@.names.take(j as int),
                column_views(out_cols@) == column_views(c0) + self@.columns.take(j as int),
            decreases names.len() - j,
        {
            assert(texts(names@)[j as int] == names@[j as int]@);
            assert(column_views(cols@)[j as int] == cols@[j as int]@);
            let ghost (bn, bc) = (out_names@, out_cols@);
            out_names.push(names[j].clone());
            out_cols.push(copy_column(&cols[j]));
            assert(texts(out_names@) =~= texts(bn).push(self@.names[j as int]));
            assert(column_views(out_cols@) =~= column_views(bc).push(self@.columns[j as int]));
            j = j + 1;
            assert(texts(out_names@) =~= texts(n0) + self@.names.take(j as int));
            assert(column_views(out_cols@) =~= column_views(c0) + self@.columns.take(j as int));
        }
        assert(self@.names.take(j as int) =~= self@.names);
        assert(self@.columns.take(j as int) =~= self@.columns);
        let ix = Index { kind: IndexKind::Range(h), name: None };
        proof {
            assert forall|k: int| 0 <= k < out_cols@.len() implies #[trigger] out_cols@[k]@.len() == ix@.kind.len() by {
                assert(column_views(out_cols@)[k] == out_cols@[k]@);
                if !drop && k == 0 {
                    assert(out_cols@[0]@ == index_column(self@.index.kind));
                } else {
                    let q = if drop { k } else { k - 1 };
                    assert(self@.columns[q].len() == self@.height());
                }
            }
        }
        match Frame::new(out_names, out_cols, Some(ix)) {
            Ok(g) => {
                assert(g@.names =~= (if drop { self@.names } else { seq![index_label(self@.index.name)] + self@.names }));
                Ok(g)
            },
            Err(_) => {
                proof {
                    assert(false);
                }
                Ok(self.duplicate())
            },
        }
    }
}

impl Frame {
    /// The first `n` rows (`iloc[:n]`: a negative `n` drops the last `-n`
    /// rows; see [`crate::positions::spec_head_tail_window`]).
    pub fn head(&self, n: i64) -> (r: Frame)
        requires
            self@.wf(),
            self@.height() <= i64::MAX,
        ensures
            ({
                let (a, b) = crate::positions::spec_head_tail_window(n as int, self@.height() as int, true);
                r@ == self@.slice(a, b)
            }),
    {
        let (a, b) = crate::positions::head_tail_window(n, self.height(), true);
        self.slice(a, b)
    }

    /// The last `n` rows (`iloc[-n:]`: a negative `n` drops the first `-n`
    /// rows; see [`crate::positions::spec_head_tail_window`]).
    pub fn tail(&self, n: i64) -> (r: Frame)
        requires
            self@.wf(),
            self@.height() <= i64::MAX,
        ensures
            ({
                let (a, b) = crate::positions::spec_head_tail_window(n as int, self@.height() as int, false);
                r@ == self@.slice(a, b)
            }),
    {
        let (a, b) = crate::positions::head_tail_window(n, self.height(), false);
        self.slice(a, b)
    }
}

} // verus!
