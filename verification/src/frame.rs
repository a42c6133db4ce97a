//! The columnar data model: typed columns, a row index and frames of named
//! columns sharing one index.

use vstd::prelude::*;

use crate::error::VolasError;
use crate::time_frame::Tz;

verus! {

/// A typed column of values.
#[derive(Debug, Clone)]
pub enum Column {
    /// 64-bit integers.
    I64(Vec<i64>),
    /// Instants as epoch nanoseconds (UTC).
    Datetime(Vec<i64>),
    /// Booleans.
    Bool(Vec<bool>),
    /// Text.
    Str(Vec<String>),
}

/// The contents of a column.
pub enum ColumnView {
    I64(Seq<i64>),
    Datetime(Seq<i64>),
    Bool(Seq<bool>),
    Str(Seq<Seq<char>>),
}

pub open spec fn texts(v: Seq<String>) -> Seq<Seq<char>> {
    v.map_values(|s: String| s@)
}

impl View for Column {
    type V = ColumnView;

    open spec fn view(&self) -> ColumnView {
        match self {
            Column::I64(v) => ColumnView::I64(v@),
            Column::Datetime(v) => ColumnView::Datetime(v@),
            Column::Bool(v) => ColumnView::Bool(v@),
            Column::Str(v) => ColumnView::Str(texts(v@)),
        }
    }
}

impl ColumnView {
    pub open spec fn len(self) -> nat {
        match self {
            ColumnView::I64(v) => v.len(),
            ColumnView::Datetime(v) => v.len(),
            ColumnView::Bool(v) => v.len(),
            ColumnView::Str(v) => v.len(),
        }
    }

    /// Whether two columns have the same dtype.
    pub open spec fn same_kind(self, o: ColumnView) -> bool {
        match (self, o) {
            (ColumnView::I64(_), ColumnView::I64(_)) => true,
            (ColumnView::Datetime(_), ColumnView::Datetime(_)) => true,
            (ColumnView::Bool(_), ColumnView::Bool(_)) => true,
            (ColumnView::Str(_), ColumnView::Str(_)) => true,
            _ => false,
        }
    }

    /// The rows at `pos`, in that order.
    pub open spec fn take(self, pos: Seq<usize>) -> ColumnView {
        match self {
            ColumnView::I64(v) => ColumnView::I64(pos.map_values(|p: usize| v[p as int])),
            ColumnView::Datetime(v) => ColumnView::Datetime(pos.map_values(|p: usize| v[p as int])),
            ColumnView::Bool(v) => ColumnView::Bool(pos.map_values(|p: usize| v[p as int])),
            ColumnView::Str(v) => ColumnView::Str(pos.map_values(|p: usize| v[p as int])),
        }
    }

    /// Rows `a..b`.
    pub open spec fn slice(self, a: int, b: int) -> ColumnView {
        match self {
            ColumnView::I64(v) => ColumnView::I64(v.subrange(a, b)),
            ColumnView::Datetime(v) => ColumnView::Datetime(v.subrange(a, b)),
            ColumnView::Bool(v) => ColumnView::Bool(v.subrange(a, b)),
            ColumnView::Str(v) => ColumnView::Str(v.subrange(a, b)),
        }
    }

    /// The rows of `self` followed by those of `o` (same dtype).
    pub open spec fn concat(self, o: ColumnView) -> ColumnView {
        match (self, o) {
            (ColumnView::I64(v), ColumnView::I64(w)) => ColumnView::I64(v + w),
            (ColumnView::Datetime(v), ColumnView::Datetime(w)) => ColumnView::Datetime(v + w),
            (ColumnView::Bool(v), ColumnView::Bool(w)) => ColumnView::Bool(v + w),
            (ColumnView::Str(v), ColumnView::Str(w)) => ColumnView::Str(v + w),
            _ => self,
        }
    }

    /// The dtype name, as pandas spells it.
    pub open spec fn dtype_name(self) -> Seq<char> {
        match self {
            ColumnView::I64(_) => "int64"@,
            ColumnView::Datetime(_) => "datetime64[ns]"@,
            ColumnView::Bool(_) => "bool"@,
            ColumnView::Str(_) => "str"@,
        }
    }
}

fn take_vec<T: Copy>(v: &Vec<T>, pos: &Vec<usize>) -> (r: Vec<T>)
    requires
        forall|k: int| 0 <= k < pos.len() ==> pos[k] < v.len(),
    ensures
        r@ == pos@.map_values(|p: usize| v@[p as int]),
{
    let mut r: Vec<T> = Vec::new();
    let mut k: usize = 0;
    while k < pos.len()
        invariant
            k <= pos.len(),
            forall|j: int| 0 <= j < pos.len() ==> pos[j] < v.len(),
            r@ == pos@.take(k as int).map_values(|p: usize| v@[p as int]),
        decreases pos.len() - k,
    {
        r.push(v[pos[k]]);
        k = k + 1;
        assert(pos@.take(k as int).map_values(|p: usize| v@[p as int]) =~= pos@.take(
            (k - 1) as int,
        ).map_values(|p: usize| v@[p as int]).push(v@[pos[k - 1] as int]));
    }
    assert(pos@.take(pos.len() as int) =~= pos@);
    r
}

fn take_strings(v: &Vec<String>, pos: &Vec<usize>) -> (r: Vec<String>)
    requires
        forall|k: int| 0 <= k < pos.len() ==> pos[k] < v.len(),
    ensures
        texts(r@) == pos@.map_values(|p: usize| texts(v@)[p as int]),
{
    let mut r: Vec<String> = Vec::new();
    let mut k: usize = 0;
    while k < pos.len()
        invariant
            k <= pos.len(),
            forall|j: int| 0 <= j < pos.len() ==> pos[j] < v.len(),
            texts(r@) =~= pos@.take(k as int).map_values(|p: usize| texts(v@)[p as int]),
        decreases pos.len() - k,
    {
        r.push(v[pos[k]].clone());
        k = k + 1;
        assert(pos@.take(k as int).map_values(|p: usize| texts(v@)[p as int]) =~= pos@.take(
            (k - 1) as int,
        ).map_values(|p: usize| texts(v@)[p as int]).push(texts(v@)[pos[k - 1] as int]));
        assert(texts(r@) =~= pos@.take(k as int).map_values(|p: usize| texts(v@)[p as int]));
    }
    assert(pos@.take(pos.len() as int) =~= pos@);
    r
}

/// A copy of a list of strings.
pub fn clone_texts(v: &Vec<String>) -> (r: Vec<String>)
    ensures
        r@ == v@,
{
    let mut r: Vec<String> = Vec::new();
    let mut i: usize = 0;
    while i < v.len()
        invariant
            i <= v.len(),
            r@ =~= v@.take(i as int),
        decreases v.len() - i,
    {
        r.push(v[i].clone());
        i = i + 1;
        assert(r@ =~= v@.take(i as int));
    }
    assert(v@.take(v.len() as int) =~= v@);
    r
}

fn range_positions(a: usize, b: usize) -> (r: Vec<usize>)
    requires
        a <= b,
    ensures
        r.len() == b - a,
        forall|k: int| 0 <= k < r.len() ==> r[k] == a + k,
{
    let mut r: Vec<usize> = Vec::new();
    let mut i = a;
    while i < b
        invariant
            a <= i <= b,
            r.len() == i - a,
            forall|k: int| 0 <= k < r.len() ==> r[k] == a + k,
        decreases b - i,
    {
        r.push(i);
        i = i + 1;
    }
    r
}

impl Column {
    /// Number of rows.
    pub fn len(&self) -> (n: usize)
        ensures
            n == self@.len(),
    {
        match self {
            Column::I64(v) => v.len(),
            Column::Datetime(v) => v.len(),
            Column::Bool(v) => v.len(),
            Column::Str(v) => v.len(),
        }
    }

    /// The dtype name, as pandas spells it.
    pub fn dtype_name(&self) -> (r: &'static str)
        ensures
            r@ == self@.dtype_name(),
    {
        match self {
            Column::I64(_) => "int64",
            Column::Datetime(_) => "datetime64[ns]",
            Column::Bool(_) => "bool",
            Column::Str(_) => "str",
        }
    }

    /// Whether two columns have the same dtype.
    pub fn same_kind(&self, o: &Column) -> (r: bool)
        ensures
            r == self@.same_kind(o@),
    {
        match (self, o) {
            (Column::I64(_), Column::I64(_)) => true,
            (Column::Datetime(_), Column::Datetime(_)) => true,
            (Column::Bool(_), Column::Bool(_)) => true,
            (Column::Str(_), Column::Str(_)) => true,
            _ => false,
        }
    }

    /// A new column of the rows at `pos`, in that order.
    pub fn take(&self, pos: &Vec<usize>) -> (r: Column)
        requires
            forall|k: int| 0 <= k < pos.len() ==> pos[k] < self@.len(),
        ensures
            r@ == self@.take(pos@),
    {
        match self {
            Column::I64(v) => Column::I64(take_vec(v, pos)),
            Column::Datetime(v) => Column::Datetime(take_vec(v, pos)),
            Column::Bool(v) => Column::Bool(take_vec(v, pos)),
            Column::Str(v) => {
                let r = take_strings(v, pos);
                Column::Str(r)
            },
        }
    }

    /// A new column of rows `a..b`.
    pub fn slice(&self, a: usize, b: usize) -> (r: Column)
        requires
            a <= b <= self@.len(),
        ensures
            r@ == self@.slice(a as int, b as int),
    {
        let pos = range_positions(a, b);
        let r = self.take(&pos);
        proof {
            let s = self@;
            match s {
                ColumnView::I64(v) => assert(pos@.map_values(|p: usize| v[p as int]) =~= v.subrange(a as int, b as int)),
                ColumnView::Datetime(v) => assert(pos@.map_values(|p: usize| v[p as int]) =~= v.subrange(a as int, b as int)),
                ColumnView::Bool(v) => assert(pos@.map_values(|p: usize| v[p as int]) =~= v.subrange(a as int, b as int)),
                ColumnView::Str(v) => assert(pos@.map_values(|p: usize| v[p as int]) =~= v.subrange(a as int, b as int)),
            }
        }
        r
    }

    /// Appends the rows of `o`, which must have the same dtype.
    pub fn extend_from(&mut self, o: &Column)
        requires
            old(self)@.same_kind(o@),
        ensures
            final(self)@ == old(self)@.concat(o@),
    {
        let n = o.len();
        let all = range_positions(0, n);
        let t = o.take(&all);
        proof {
            let ov = o@;
            match ov {
                ColumnView::I64(v) => assert(all@.map_values(|p: usize| v[p as int]) =~= v),
                ColumnView::Datetime(v) => assert(all@.map_values(|p: usize| v[p as int]) =~= v),
                ColumnView::Bool(v) => assert(all@.map_values(|p: usize| v[p as int]) =~= v),
                ColumnView::Str(v) => assert(all@.map_values(|p: usize| v[p as int]) =~= v),
            }
        }
        match (self, t) {
            (Column::I64(v), Column::I64(mut w)) => v.append(&mut w),
            (Column::Datetime(v), Column::Datetime(mut w)) => v.append(&mut w),
            (Column::Bool(v), Column::Bool(mut w)) => v.append(&mut w),
            (Column::Str(v), Column::Str(mut w)) => {
                let ghost before = v@;
                let ghost added = w@;
                v.append(&mut w);
                assert(texts(v@) =~= texts(before) + texts(added));
            },
            _ => {},
        }
    }

    /// Replaces the last value by the first of `o` (of the same dtype).
    pub fn set_last(&mut self, o: &Column)
        requires
            old(self)@.same_kind(o@),
            old(self)@.len() > 0,
            o@.len() > 0,
        ensures
            final(self)@ == old(self)@.slice(0, old(self)@.len() - 1).concat(o@.slice(0, 1)),
    {
        let ghost before = self@;
        match (self, o) {
            (Column::I64(v), Column::I64(w)) => {
                let ghost v0 = v@;
                v.pop();
                v.push(w[0]);
                assert(v@ =~= v0.subrange(0, v0.len() - 1) + w@.subrange(0, 1));
            },
            (Column::Datetime(v), Column::Datetime(w)) => {
                let ghost v0 = v@;
                v.pop();
                v.push(w[0]);
                assert(v@ =~= v0.subrange(0, v0.len() - 1) + w@.subrange(0, 1));
            },
            (Column::Bool(v), Column::Bool(w)) => {
                let ghost v0 = v@;
                v.pop();
                v.push(w[0]);
                assert(v@ =~= v0.subrange(0, v0.len() - 1) + w@.subrange(0, 1));
            },
            (Column::Str(v), Column::Str(w)) => {
                let ghost v0 = v@;
                v.pop();
                let x = w[0].clone();
                v.push(x);
                assert(texts(v@) =~= texts(v0).subrange(0, v0.len() - 1) + texts(w@).subrange(0, 1));
            },
            _ => {},
        }
    }
}


/// The row labels of a frame.
#[derive(Debug, Clone)]
pub enum IndexKind {
    /// `0..n`.
    Range(usize),
    /// Integer labels.
    Int64(Vec<i64>),
    /// Instants (epoch nanoseconds, UTC) shown in a zone.
    Datetime(Vec<i64>, Tz),
    /// Text labels.
    Str(Vec<String>),
}

/// A row index with an optional name.
#[derive(Debug, Clone)]
pub struct Index {
    pub kind: IndexKind,
    pub name: Option<String>,
}

pub enum IndexKindView {
    Range(nat),
    Int64(Seq<i64>),
    Datetime(Seq<i64>, Tz),
    Str(Seq<Seq<char>>),
}

pub struct IndexView {
    pub kind: IndexKindView,
    pub name: Option<Seq<char>>,
}

pub open spec fn opt_text(s: Option<String>) -> Option<Seq<char>> {
    match s {
        Some(t) => Some(t@),
        None => None,
    }
}

impl View for Index {
    type V = IndexView;

    open spec fn view(&self) -> IndexView {
        IndexView {
            kind: match self.kind {
                IndexKind::Range(n) => IndexKindView::Range(n as nat),
                IndexKind::Int64(v) => IndexKindView::Int64(v@),
                IndexKind::Datetime(v, tz) => IndexKindView::Datetime(v@, tz),
                IndexKind::Str(v) => IndexKindView::Str(texts(v@)),
            },
            name: opt_text(self.name),
        }
    }
}

impl IndexKindView {
    pub open spec fn len(self) -> nat {
        match self {
            IndexKindView::Range(n) => n,
            IndexKindView::Int64(v) => v.len(),
            IndexKindView::Datetime(v, _) => v.len(),
            IndexKindView::Str(v) => v.len(),
        }
    }

    pub open spec fn same_kind(self, o: IndexKindView) -> bool {
        match (self, o) {
            (IndexKindView::Range(_), IndexKindView::Range(_)) => true,
            (IndexKindView::Int64(_), IndexKindView::Int64(_)) => true,
            (IndexKindView::Datetime(_, _), IndexKindView::Datetime(_, _)) => true,
            (IndexKindView::Str(_), IndexKindView::Str(_)) => true,
            _ => false,
        }
    }

    /// Labels `a..b` (a range index stays a range, renumbered from 0).
    pub open spec fn slice(self, a: int, b: int) -> IndexKindView {
        match self {
            IndexKindView::Range(_) => IndexKindView::Range((b - a) as nat),
            IndexKindView::Int64(v) => IndexKindView::Int64(v.subrange(a, b)),
            IndexKindView::Datetime(v, tz) => IndexKindView::Datetime(v.subrange(a, b), tz),
            IndexKindView::Str(v) => IndexKindView::Str(v.subrange(a, b)),
        }
    }

    /// Labels of `self` followed by those of `o` (same kind; a datetime index
    /// keeps the zone of `self`).
    pub open spec fn concat(self, o: IndexKindView) -> IndexKindView {
        match (self, o) {
            (IndexKindView::Range(n), IndexKindView::Range(m)) => IndexKindView::Range(n + m),
            (IndexKindView::Int64(v), IndexKindView::Int64(w)) => IndexKindView::Int64(v + w),
            (IndexKindView::Datetime(v, tz), IndexKindView::Datetime(w, _)) => IndexKindView::Datetime(v + w, tz),
            (IndexKindView::Str(v), IndexKindView::Str(w)) => IndexKindView::Str(v + w),
            _ => self,
        }
    }
}

impl Index {
    /// A datetime index.
    pub fn datetime(values: Vec<i64>, tz: Tz) -> (r: Index)
        ensures
            r@ == (IndexView { kind: IndexKindView::Datetime(values@, tz), name: None }),
    {
        Index { kind: IndexKind::Datetime(values, tz), name: None }
    }

    /// The same index with the given name.
    pub fn with_name(self, name: Option<String>) -> (r: Index)
        ensures
            r@ == (IndexView { kind: self@.kind, name: opt_text(name) }),
    {
        Index { kind: self.kind, name }
    }

    /// Number of labels.
    pub fn len(&self) -> (n: usize)
        ensures
            n == self@.kind.len(),
    {
        match &self.kind {
            IndexKind::Range(n) => *n,
            IndexKind::Int64(v) => v.len(),
            IndexKind::Datetime(v, _) => v.len(),
            IndexKind::Str(v) => v.len(),
        }
    }

    /// Labels `a..b`, keeping the name.
    pub fn slice(&self, a: usize, b: usize) -> (r: Index)
        requires
            a <= b <= self@.kind.len(),
        ensures
            r@ == (IndexView { kind: self@.kind.slice(a as int, b as int), name: self@.name }),
    {
        let pos = range_positions(a, b);
        let kind = match &self.kind {
            IndexKind::Range(_) => IndexKind::Range(b - a),
            IndexKind::Int64(v) => {
                let w = take_vec(v, &pos);
                assert(w@ =~= v@.subrange(a as int, b as int));
                IndexKind::Int64(w)
            },
            IndexKind::Datetime(v, tz) => {
                let w = take_vec(v, &pos);
                assert(w@ =~= v@.subrange(a as int, b as int));
                IndexKind::Datetime(w, *tz)
            },
            IndexKind::Str(v) => {
                let w = take_strings(v, &pos);
                assert(texts(w@) =~= texts(v@).subrange(a as int, b as int));
                IndexKind::Str(w)
            },
        };
        Index { kind, name: self.name.clone() }
    }

    /// Appends the labels of `o`, which must be of the same kind.
    pub fn extend_from(&mut self, o: &Index)
        requires
            old(self)@.kind.same_kind(o@.kind),
            old(self)@.kind.len() + o@.kind.len() <= usize::MAX,
        ensures
            final(self)@ == (IndexView { kind: old(self)@.kind.concat(o@.kind), name: old(self)@.name }),
    {
        let n = o.len();
        let all = range_positions(0, n);
        match (&mut self.kind, &o.kind) {
            (IndexKind::Range(k), IndexKind::Range(m)) => {
                *k = *k + *m;
            },
            (IndexKind::Int64(v), IndexKind::Int64(w)) => {
                let mut t = take_vec(w, &all);
                assert(t@ =~= w@);
                v.append(&mut t);
            },
            (IndexKind::Datetime(v, _), IndexKind::Datetime(w, _)) => {
                let mut t = take_vec(w, &all);
                assert(t@ =~= w@);
                v.append(&mut t);
            },
            (IndexKind::Str(v), IndexKind::Str(w)) => {
                let mut t = take_strings(w, &all);
                assert(texts(t@) =~= texts(w@));
                let ghost before = v@;
                let ghost added = t@;
                v.append(&mut t);
                assert(texts(v@) =~= texts(before) + texts(added));
            },
            _ => {},
        }
    }

    /// Replaces the last label by the first of `o` (of the same kind).
    pub fn set_last(&mut self, o: &Index)
        requires
            old(self)@.kind.same_kind(o@.kind),
            old(self)@.kind.len() > 0,
            o@.kind.len() > 0,
        ensures
            final(self)@ == (IndexView {
                kind: old(self)@.kind.slice(0, old(self)@.kind.len() - 1).concat(o@.kind.slice(0, 1)),
                name: old(self)@.name,
            }),
    {
        match (&mut self.kind, &o.kind) {
            (IndexKind::Range(k), IndexKind::Range(_)) => {},
            (IndexKind::Int64(v), IndexKind::Int64(w)) => {
                let ghost v0 = v@;
                v.pop();
                v.push(w[0]);
                assert(v@ =~= v0.subrange(0, v0.len() - 1) + w@.subrange(0, 1));
            },
            (IndexKind::Datetime(v, _), IndexKind::Datetime(w, _)) => {
                let ghost v0 = v@;
                v.pop();
                v.push(w[0]);
                assert(v@ =~= v0.subrange(0, v0.len() - 1) + w@.subrange(0, 1));
            },
            (IndexKind::Str(v), IndexKind::Str(w)) => {
                let ghost v0 = v@;
                v.pop();
                let x = w[0].clone();
                v.push(x);
                assert(texts(v@) =~= texts(v0).subrange(0, v0.len() - 1) + texts(w@).subrange(0, 1));
            },
            _ => {},
        }
    }
}


/// Named, equally long columns sharing one row index.
#[derive(Debug, Clone)]
pub struct Frame {
    names: Vec<String>,
    columns: Vec<Column>,
    index: Index,
}

pub struct FrameView {
    pub names: Seq<Seq<char>>,
    pub columns: Seq<ColumnView>,
    pub index: IndexView,
}

pub open spec fn column_views(v: Seq<Column>) -> Seq<ColumnView> {
    v.map_values(|c: Column| c@)
}

impl View for Frame {
    type V = FrameView;

    closed spec fn view(&self) -> FrameView {
        FrameView { names: texts(self.names@), columns: column_views(self.columns@), index: self.index@ }
    }
}

impl FrameView {
    /// One name per column, and every column as long as the index.
    pub open spec fn wf(self) -> bool {
        &&& self.names.len() == self.columns.len()
        &&& forall|j: int| 0 <= j < self.columns.len() ==> #[trigger] self.columns[j].len() == self.index.kind.len()
    }

    pub open spec fn height(self) -> nat {
        self.index.kind.len()
    }

    /// Rows `a..b`.
    pub open spec fn slice(self, a: int, b: int) -> FrameView {
        FrameView {
            names: self.names,
            columns: self.columns.map_values(|c: ColumnView| c.slice(a, b)),
            index: IndexView { kind: self.index.kind.slice(a, b), name: self.index.name },
        }
    }

    /// Same column names, column dtypes and index kind, so that the rows of
    /// `o` can follow those of `self`.
    pub open spec fn compatible(self, o: FrameView) -> bool {
        &&& self.names == o.names
        &&& self.columns.len() == o.columns.len()
        &&& forall|j: int| 0 <= j < self.columns.len() ==> #[trigger] self.columns[j].same_kind(o.columns[j])
        &&& self.index.kind.same_kind(o.index.kind)
    }

    /// The rows of `self` followed by those of `o`.
    pub open spec fn concat(self, o: FrameView) -> FrameView {
        FrameView {
            names: self.names,
            columns: Seq::new(self.columns.len(), |j: int| self.columns[j].concat(o.columns[j])),
            index: IndexView { kind: self.index.kind.concat(o.index.kind), name: self.index.name },
        }
    }
}

impl Frame {
    /// A frame of `names` / `columns`, indexed by `index` or, when `None`, by
    /// `0..n`.
    pub fn new(names: Vec<String>, columns: Vec<Column>, index: Option<Index>) -> (r: Result<Frame, VolasError>)
        ensures
            match r {
                Ok(f) => {
                    &&& f@.wf()
                    &&& f@.names == texts(names@)
                    &&& f@.columns == column_views(columns@)
                    &&& match index {
                        Some(ix) => f@.index == ix@,
                        None => f@.index == (IndexView {
                            kind: IndexKindView::Range(if columns.len() == 0 { 0 } else { columns@[0]@.len() }),
                            name: None,
                        }),
                    }
                },
                Err(_) => !(names.len() == columns.len() && forall|j: int| 0 <= j < columns.len() ==>
                    #[trigger] columns@[j]@.len() == match index {
                        Some(ix) => ix@.kind.len(),
                        None => columns@[0]@.len(),
                    }),
            },
    {
        if names.len() != columns.len() {
            return Err(VolasError::Value("the numbers of column names and columns differ".to_owned()));
        }
        let n: usize = match &index {
            Some(ix) => ix.len(),
            None => if columns.len() == 0 { 0 } else { columns[0].len() },
        };
        let mut j: usize = 0;
        while j < columns.len()
            invariant
                j <= columns.len(),
                n == match index {
                    Some(ix) => ix@.kind.len(),
                    None => if columns.len() == 0 { 0 } else { columns@[0]@.len() },
                },
                forall|k: int| 0 <= k < j ==> #[trigger] columns@[k]@.len() == n,
            decreases columns.len() - j,
        {
            if columns[j].len() != n {
                return Err(VolasError::Value("the columns and the index differ in length".to_owned()));
            }
            j = j + 1;
        }
        let index = match index {
            Some(ix) => ix,
            None => Index { kind: IndexKind::Range(n), name: None },
        };
        Ok(Frame { names, columns, index })
    }

    /// Number of rows.
    pub fn height(&self) -> (n: usize)
        ensures
            n == self@.height(),
    {
        self.index.len()
    }

    /// Number of columns.
    pub fn width(&self) -> (n: usize)
        ensures
            n == self@.columns.len(),
    {
        self.columns.len()
    }

    /// The column names.
    pub fn names(&self) -> (r: &Vec<String>)
        ensures
            texts(r@) == self@.names,
    {
        &self.names
    }

    /// The columns.
    pub fn columns(&self) -> (r: &Vec<Column>)
        ensures
            column_views(r@) == self@.columns,
    {
        &self.columns
    }

    /// The row index.
    pub fn index(&self) -> (r: &Index)
        ensures
            r@ == self@.index,
    {
        &self.index
    }

    /// The column called `name`.
    pub fn column(&self, name: &str) -> (r: Result<&Column, VolasError>)
        requires
            self@.wf(),
        ensures
            match r {
                Ok(c) => exists|j: int|
                    0 <= j < self@.columns.len() && self@.names[j] == name@ && c@ == self@.columns[j] && !self@.names.take(j).contains(name@),
                Err(_) => !self@.names.contains(name@),
            },
    {
        let mut j: usize = 0;
        while j < self.names.len()
            invariant
                self@.wf(),
                j <= self.names.len(),
                forall|k: int| 0 <= k < j ==> texts(self.names@)[k] != name@,
            decreases self.names.len() - j,
        {
            assert(texts(self.names@)[j as int] == self.names@[j as int]@);
            if crate::text::same_text(self.names[j].as_str(), name) {
                if j < self.columns.len() {
                    assert(self@.names[j as int] == name@);
                    assert(self@.columns[j as int] == self.columns@[j as int]@);
                    assert(!self@.names.take(j as int).contains(name@)) by {
                        if self@.names.take(j as int).contains(name@) {
                            let k = choose|k: int| 0 <= k < j && self@.names.take(j as int)[k] == name@;
                            assert(texts(self.names@)[k] != name@);
                        }
                    }
                    return Ok(&self.columns[j]);
                }
            }
            j = j + 1;
        }
        let mut m = "column '".to_owned();
        m.append(name);
        m.append("' not found");
        Err(VolasError::Value(m))
    }

    /// A new frame of rows `a..b`.
    pub fn slice(&self, a: usize, b: usize) -> (r: Frame)
        requires
            self@.wf(),
            a <= b <= self@.height(),
        ensures
            r@ == self@.slice(a as int, b as int),
            r@.wf(),
    {
        let mut cols: Vec<Column> = Vec::new();
        let mut j: usize = 0;
        while j < self.columns.len()
            invariant
                self@.wf(),
                a <= b <= self@.height(),
                j <= self.columns.len(),
                column_views(cols@) =~= self@.columns.take(j as int).map_values(|c: ColumnView| c.slice(a as int, b as int)),
            decreases self.columns.len() - j,
        {
            assert(self@.columns[j as int] == self.columns@[j as int]@);
            let c = self.columns[j].slice(a, b);
            let ghost before = cols@;
            cols.push(c);
            assert(column_views(cols@) =~= column_views(before).push(c@));
            j = j + 1;
            assert(column_views(cols@) =~= self@.columns.take(j as int).map_values(|c: ColumnView| c.slice(a as int, b as int)));
        }
        assert(self@.columns.take(self.columns.len() as int) =~= self@.columns);
        let names = clone_texts(&self.names);
        let index = self.index.slice(a, b);
        let r = Frame { names, columns: cols, index };
        proof {
            assert forall|k: int| 0 <= k < r@.columns.len() implies #[trigger] r@.columns[k].len() == r@.index.kind.len() by {
                assert(self@.columns[k].len() == self@.index.kind.len());
            }
        }
        r
    }

    /// Whether the rows of `o` can follow those of `self`.
    pub fn compatible(&self, o: &Frame) -> (r: bool)
        ensures
            r == self@.compatible(o@),
    {
        if self.names.len() != o.names.len() || self.columns.len() != o.columns.len() {
            proof {
                if self@.names == o@.names {
                    assert(self@.names.len() == o@.names.len());
                }
            }
            return false;
        }
        let mut j: usize = 0;
        while j < self.names.len()
            invariant
                j <= self.names.len(),
                self.names.len() == o.names.len(),
                forall|k: int| 0 <= k < j ==> texts(self.names@)[k] == texts(o.names@)[k],
            decreases self.names.len() - j,
        {
            assert(texts(self.names@)[j as int] == self.names@[j as int]@);
            assert(texts(o.names@)[j as int] == o.names@[j as int]@);
            if !(self.names[j] == o.names[j]) {
                proof {
                    if self@.names == o@.names {
                        assert(self@.names[j as int] == o@.names[j as int]);
                    }
                }
                return false;
            }
            j = j + 1;
        }
        assert(self@.names =~= o@.names);
        let mut j: usize = 0;
        while j < self.columns.len()
            invariant
                j <= self.columns.len(),
                self.columns.len() == o.columns.len(),
                forall|k: int| 0 <= k < j ==> #[trigger] self@.columns[k].same_kind(o@.columns[k]),
            decreases self.columns.len() - j,
        {
            assert(self@.columns[j as int] == self.columns@[j as int]@);
            assert(o@.columns[j as int] == o.columns@[j as int]@);
            if !self.columns[j].same_kind(&o.columns[j]) {
                return false;
            }
            j = j + 1;
        }
        match (&self.index.kind, &o.index.kind) {
            (IndexKind::Range(_), IndexKind::Range(_)) => true,
            (IndexKind::Int64(_), IndexKind::Int64(_)) => true,
            (IndexKind::Datetime(_, _), IndexKind::Datetime(_, _)) => true,
            (IndexKind::Str(_), IndexKind::Str(_)) => true,
            _ => false,
        }
    }

    /// Appends the rows of `o`, which must have the same column names, column
    /// dtypes and index kind.
    pub fn append(&mut self, o: &Frame) -> (r: Result<(), VolasError>)
        requires
            old(self)@.wf(),
            o@.wf(),
        ensures
            r is Ok <==> old(self)@.compatible(o@) && old(self)@.height() + o@.height() <= usize::MAX,
            r is Ok ==> final(self)@ == old(self)@.concat(o@),
            r is Err ==> final(self)@ == old(self)@,
            final(self)@.wf(),
    {
        if !self.compatible(o) {
            return Err(VolasError::Value("cannot append frames with different columns or index kinds".to_owned()));
        }
        let n = self.height();
        let m = o.height();
        if n > usize::MAX - m {
            return Err(VolasError::Value("the appended frame would be too long".to_owned()));
        }
        let mut cols: Vec<Column> = Vec::new();
        let mut j: usize = 0;
        while j < self.columns.len()
            invariant
                self@.wf(),
                o@.wf(),
                self@.compatible(o@),
                j <= self.columns.len(),
                n == self@.height(),
                m == o@.height(),
                cols.len() == j,
                forall|k: int| 0 <= k < j ==> #[trigger] cols@[k]@ == self@.columns[k].concat(o@.columns[k]),
            decreases self.columns.len() - j,
        {
            assert(self@.columns[j as int] == self.columns@[j as int]@);
            assert(o@.columns[j as int] == o.columns@[j as int]@);
            assert(self@.columns[j as int].len() == n);
            let mut c = self.columns[j].slice(0, n);
            proof {
                let cv = self@.columns[j as int];
                match cv {
                    ColumnView::I64(v) => assert(v.subrange(0, n as int) =~= v),
                    ColumnView::Datetime(v) => assert(v.subrange(0, n as int) =~= v),
                    ColumnView::Bool(v) => assert(v.subrange(0, n as int) =~= v),
                    ColumnView::Str(v) => assert(v.subrange(0, n as int) =~= v),
                }
            }
            c.extend_from(&o.columns[j]);
            cols.push(c);
            j = j + 1;
        }
        self.index.extend_from(&o.index);
        self.columns = cols;
        proof {
            assert(self@.columns =~= old(self)@.concat(o@).columns);
            assert forall|k: int| 0 <= k < self@.columns.len() implies #[trigger] self@.columns[k].len() == self@.index.kind.len() by {
                assert(old(self)@.columns[k].len() == n);
                assert(o@.columns[k].len() == m);
                assert(old(self)@.columns[k].same_kind(o@.columns[k]));
                assert(cols@[k]@ == old(self)@.columns[k].concat(o@.columns[k]));
            }
        }
        Ok(())
    }
}


/// The whole row range of a well-formed frame is the frame itself.
pub proof fn lemma_slice_full(f: FrameView)
    requires
        f.wf(),
    ensures
        f.slice(0, f.height() as int) == f,
{
    let n = f.height() as int;
    let g = f.slice(0, n);
    assert forall|j: int| 0 <= j < f.columns.len() implies #[trigger] g.columns[j] == f.columns[j] by {
        assert(f.columns[j].len() == n);
        match f.columns[j] {
            ColumnView::I64(v) => assert(v.subrange(0, n) =~= v),
            ColumnView::Datetime(v) => assert(v.subrange(0, n) =~= v),
            ColumnView::Bool(v) => assert(v.subrange(0, n) =~= v),
            ColumnView::Str(v) => assert(v.subrange(0, n) =~= v),
        }
    }
    assert(g.columns =~= f.columns);
    match f.index.kind {
        IndexKindView::Range(m) => {},
        IndexKindView::Int64(v) => assert(v.subrange(0, n) =~= v),
        IndexKindView::Datetime(v, tz) => assert(v.subrange(0, n) =~= v),
        IndexKindView::Str(v) => assert(v.subrange(0, n) =~= v),
    }
}

impl Frame {
    /// The frame with no columns and no rows.
    pub fn empty() -> (r: Frame)
        ensures
            r@ == (FrameView { names: seq![], columns: seq![], index: IndexView { kind: IndexKindView::Range(0), name: None } }),
            r@.wf(),
    {
        let r = Frame { names: Vec::new(), columns: Vec::new(), index: Index { kind: IndexKind::Range(0), name: None } };
        assert(r@.names =~= Seq::<Seq<char>>::empty());
        assert(r@.columns =~= Seq::<ColumnView>::empty());
        r
    }
}

/// Rows `a..b` of a well-formed frame form a well-formed frame of `b - a`
/// rows.
pub proof fn lemma_slice_wf(f: FrameView, a: int, b: int)
    requires
        f.wf(),
        0 <= a <= b <= f.height(),
    ensures
        f.slice(a, b).wf(),
        f.slice(a, b).height() == b - a,
{
    let g = f.slice(a, b);
    assert forall|j: int| 0 <= j < g.columns.len() implies #[trigger] g.columns[j].len() == g.index.kind.len() by {
        assert(f.columns[j].len() == f.height());
        match f.columns[j] {
            ColumnView::I64(v) => {},
            ColumnView::Datetime(v) => {},
            ColumnView::Bool(v) => {},
            ColumnView::Str(v) => {},
        }
    }
}

impl Frame {
    /// Replaces the last row by the one row of `row`, which has the same
    /// column names and dtypes; the index keeps its zone and name.
    pub fn replace_last(&mut self, row: &Frame)
        requires
            old(self)@.wf(),
            row@.wf(),
            old(self)@.height() > 0,
            row@.height() == 1,
            old(self)@.compatible(row@),
        ensures
            final(self)@ == old(self)@.slice(0, old(self)@.height() - 1).concat(row@),
            final(self)@.wf(),
    {
        let ghost old_view = self@;
        let ghost h = old_view.height() as int;
        let nc = self.columns.len();
        let mut j: usize = 0;
        while j < nc
            invariant
                nc == self.columns.len(),
                row@.wf(),
                row@.height() == 1,
                old_view.wf(),
                old_view.compatible(row@),
                h == old_view.height(),
                h > 0,
                old_view.columns.len() == nc,
                j <= nc,
                self.names@ == old(self).names@,
                self.index == old(self).index,
                forall|q: int| 0 <= q < j ==> #[trigger] column_views(self.columns@)[q] == old_view.columns[q].slice(0, h - 1).concat(row@.columns[q].slice(0, 1)),
                forall|q: int| j <= q < nc ==> #[trigger] column_views(self.columns@)[q] == old_view.columns[q],
            decreases nc - j,
        {
            assert(column_views(self.columns@)[j as int] == self.columns@[j as int]@);
            assert(old_view.columns[j as int].same_kind(row@.columns[j as int]));
            assert(old_view.columns[j as int].len() == h);
            assert(row@.columns[j as int].len() == 1);
            assert(column_views(row.columns@)[j as int] == row.columns@[j as int]@);
            let ghost cols0 = self.columns@;
            let mut c = Column::I64(Vec::new());
            self.columns.set_and_swap(j, &mut c);
            assert(c@ == old_view.columns[j as int]);
            c.set_last(&row.columns[j]);
            let ghost newc = c;
            self.columns.set_and_swap(j, &mut c);
            assert(self.columns@ =~= cols0.update(j as int, newc));
            assert(column_views(self.columns@) =~= column_views(cols0).update(j as int, newc@));
            j = j + 1;
        }
        self.index.set_last(&row.index);
        proof {
            let nv = self@;
            let want = old_view.slice(0, h - 1).concat(row@);
            assert forall|q: int| 0 <= q < nc implies #[trigger] nv.columns[q] == want.columns[q] by {
                assert(row@.columns[q].len() == 1);
                let rc = row@.columns[q];
                match rc {
                    ColumnView::I64(w) => assert(w.subrange(0, 1) =~= w),
                    ColumnView::Datetime(w) => assert(w.subrange(0, 1) =~= w),
                    ColumnView::Bool(w) => assert(w.subrange(0, 1) =~= w),
                    ColumnView::Str(w) => assert(w.subrange(0, 1) =~= w),
                }
            }
            assert(nv.columns =~= want.columns);
            match row@.index.kind {
                IndexKindView::Range(_) => {},
                IndexKindView::Int64(w) => assert(w.subrange(0, 1) =~= w),
                IndexKindView::Datetime(w, _) => assert(w.subrange(0, 1) =~= w),
                IndexKindView::Str(w) => assert(w.subrange(0, 1) =~= w),
            }
            assert forall|q: int| 0 <= q < nv.columns.len() implies #[trigger] nv.columns[q].len() == nv.index.kind.len() by {
                assert(old_view.columns[q].len() == h);
                assert(old_view.columns[q].same_kind(row@.columns[q]));
                assert(row@.columns[q].len() == 1);
                match (old_view.columns[q], row@.columns[q]) {
                    (ColumnView::I64(a), ColumnView::I64(b)) => {},
                    (ColumnView::Datetime(a), ColumnView::Datetime(b)) => {},
                    (ColumnView::Bool(a), ColumnView::Bool(b)) => {},
                    (ColumnView::Str(a), ColumnView::Str(b)) => {},
                    _ => {},
                }
                match (old_view.index.kind, row@.index.kind) {
                    (IndexKindView::Range(a), IndexKindView::Range(b)) => {},
                    (IndexKindView::Int64(a), IndexKindView::Int64(b)) => {},
                    (IndexKindView::Datetime(a, _), IndexKindView::Datetime(b, _)) => {},
                    (IndexKindView::Str(a), IndexKindView::Str(b)) => {},
                    _ => {},
                }
            }
        }
    }
}

impl Frame {
    /// A copy of the frame.
    pub fn duplicate(&self) -> (r: Frame)
        requires
            self@.wf(),
        ensures
            r@ == self@,
    {
        proof {
            lemma_slice_full(self@);
        }
        self.slice(0, self.height())
    }
}

} // verus!
