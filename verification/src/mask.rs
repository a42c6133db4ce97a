//! Lining up the condition frame of `where` / `mask` with the frame it masks.

use vstd::prelude::*;
use crate::error::VolasError;
use crate::frame::{column_views, texts, Column, ColumnView, Frame, FrameView, Index, IndexKind, IndexView};
use crate::reshape::{copy_column, copy_index};
use crate::select::{column_pos, is_first_pos};
use crate::text::same_text;

verus! {

/// How often `a` occurs in `s`.
pub open spec fn count_of(s: Seq<Seq<char>>, a: Seq<char>) -> nat
    decreases s.len(),
{
    if s.len() == 0 {
        0
    } else {
        count_of(s.drop_last(), a) + if s.last() == a { 1nat } else { 0nat }
    }
}

/// Whether `a` and `b` hold the same names, each as often (in any order).
pub open spec fn same_names(a: Seq<Seq<char>>, b: Seq<Seq<char>>) -> bool {
    a.len() == b.len() && forall|i: int| 0 <= i < a.len() ==> count_of(a, #[trigger] a[i]) == count_of(b, a[i])
}

/// The first position of `n` among `names`.
pub open spec fn first_of(names: Seq<Seq<char>>, n: Seq<char>) -> int {
    choose|p: int| is_first_pos(names, n, p)
}

/// The columns of `cond` put in the order of `names`, each name taking the
/// first column of `cond` so called.
pub open spec fn reorder_columns(cond: FrameView, names: Seq<Seq<char>>) -> FrameView {
    FrameView {
        names,
        columns: names.map_values(|n: Seq<char>| cond.columns[first_of(cond.names, n)]),
        index: cond.index,
    }
}

/// The condition paired with the frame's columns by name: kept as it is when
/// the names already agree in order, else reordered.
pub open spec fn aligned(base: FrameView, cond: FrameView) -> FrameView {
    if cond.names == base.names { cond } else { reorder_columns(cond, base.names) }
}

/// Whether every column is boolean.
pub open spec fn all_bool(cols: Seq<ColumnView>) -> bool {
    forall|j: int| 0 <= j < cols.len() ==> #[trigger] cols[j] is Bool
}

/// A name occurs in `s` exactly when it is counted there, and then it has a
/// first position.
proof fn lemma_count_first(s: Seq<Seq<char>>, a: Seq<char>)
    ensures
        s.contains(a) <==> count_of(s, a) > 0,
        s.contains(a) ==> exists|p: int| is_first_pos(s, a, p),
    decreases s.len(),
{
    if s.len() > 0 {
        let t = s.drop_last();
        lemma_count_first(t, a);
        if t.contains(a) {
            let p = choose|p: int| is_first_pos(t, a, p);
            assert(s.take(p) =~= t.take(p));
            assert(s[p] == t[p]);
            assert(is_first_pos(s, a, p));
            let k = choose|k: int| 0 <= k < t.len() && t[k] == a;
            assert(s[k] == a);
        } else if s.last() == a {
            let p = s.len() - 1;
            assert(s.take(p) =~= t);
            assert(s[p] == a);
            assert(is_first_pos(s, a, p));
        } else {
            assert(!s.contains(a)) by {
                if s.contains(a) {
                    let k = choose|k: int| 0 <= k < s.len() && s[k] == a;
                    if k < s.len() - 1 {
                        assert(t[k] == a);
                    }
                }
            }
        }
    }
}

/// The first position of a name is unique.
proof fn lemma_first_unique(s: Seq<Seq<char>>, a: Seq<char>, p: int, q: int)
    requires
        is_first_pos(s, a, p),
        is_first_pos(s, a, q),
    ensures
        p == q,
{
    if p < q {
        assert(s.take(q)[p] == a);
    } else if q < p {
        assert(s.take(p)[q] == a);
    }
}

/// How often `name` occurs in `names`.
fn count_name(names: &Vec<String>, name: &str) -> (r: usize)
    ensures
        r == count_of(texts(names@), name@),
{
    let mut c: usize = 0;
    let mut i: usize = 0;
    while i < names.len()
        invariant
            i <= names@.len(),
            c <= i,
            c == count_of(texts(names@).take(i as int), name@),
        decreases names.len() - i,
    {
        assert(texts(names@).take(i + 1).drop_last() =~= texts(names@).take(i as int));
        assert(texts(names@)[i as int] == names@[i as int]@);
        if same_text(names[i].as_str(), name) {
            c = c + 1;
        }
        i = i + 1;
    }
    assert(texts(names@).take(i as int) =~= texts(names@));
    c
}

fn names_equal(a: &Vec<String>, b: &Vec<String>) -> (r: bool)
    ensures
        r == (texts(a@) == texts(b@)),
{
    if a.len() != b.len() {
        assert(texts(a@).len() != texts(b@).len());
        return false;
    }
    let mut i: usize = 0;
    while i < a.len()
        invariant
            a@.len() == b@.len(),
            i <= a@.len(),
            forall|k: int| 0 <= k < i ==> texts(a@)[k] == texts(b@)[k],
        decreases a.len() - i,
    {
        assert(texts(a@)[i as int] == a@[i as int]@);
        assert(texts(b@)[i as int] == b@[i as int]@);
        if !same_text(a[i].as_str(), b[i].as_str()) {
            return false;
        }
        i = i + 1;
    }
    assert(texts(a@) =~= texts(b@));
    true
}

fn i64s_equal(a: &Vec<i64>, b: &Vec<i64>) -> (r: bool)
    ensures
        r == (a@ == b@),
{
    if a.len() != b.len() {
        return false;
    }
    let mut i: usize = 0;
    while i < a.len()
        invariant
            a@.len() == b@.len(),
            i <= a@.len(),
            forall|k: int| 0 <= k < i ==> a@[k] == b@[k],
        decreases a.len() - i,
    {
        if a[i] != b[i] {
            return false;
        }
        i = i + 1;
    }
    assert(a@ =~= b@);
    true
}

/// Whether two indexes hold the same labels of the same kind, under the same
/// name.
pub fn index_eq(a: &Index, b: &Index) -> (r: bool)
    ensures
        r == (a@ == b@),
{
    let kinds = match (&a.kind, &b.kind) {
        (IndexKind::Range(n), IndexKind::Range(m)) => *n == *m,
        (IndexKind::Int64(v), IndexKind::Int64(w)) => i64s_equal(v, w),
        (IndexKind::Datetime(v, tz), IndexKind::Datetime(w, tz2)) => *tz == *tz2 && i64s_equal(v, w),
        (IndexKind::Str(v), IndexKind::Str(w)) => names_equal(v, w),
        _ => false,
    };
    let names = match (&a.name, &b.name) {
        (Some(x), Some(y)) => same_text(x.as_str(), y.as_str()),
        (None, None) => true,
        _ => false,
    };
    kinds && names
}

fn reorder(cond: &Frame, names: &Vec<String>) -> (r: Frame)
    requires
        cond@.wf(),
        forall|i: int| 0 <= i < names@.len() ==> cond@.names.contains(#[trigger] texts(names@)[i]),
    ensures
        r@ == reorder_columns(cond@, texts(names@)),
        r@.wf(),
{
    let cn = cond.names();
    let cols = cond.columns();
    let mut out: Vec<Column> = Vec::new();
    let mut i: usize = 0;
    while i < names.len()
        invariant
            cond@.wf(),
            texts(cn@) == cond@.names,
            column_views(cols@) == cond@.columns,
            forall|q: int| 0 <= q < names@.len() ==> cond@.names.contains(#[trigger] texts(names@)[q]),
            i <= names@.len(),
            column_views(out@) == texts(names@).take(i as int).map_values(
                |n: Seq<char>| cond@.columns[first_of(cond@.names, n)],
            ),
        decreases names.len() - i,
    {
        assert(texts(names@)[i as int] == names@[i as int]@);
        let p = match column_pos(cn, names[i].as_str()) {
            Ok(p) => p,
            Err(_) => {
                proof {
                    assert(cond@.names.contains(texts(names@)[i as int]));
                }
                0
            },
        };
        proof {
            let n = texts(names@)[i as int];
            lemma_count_first(cond@.names, n);
            lemma_first_unique(cond@.names, n, p as int, first_of(cond@.names, n));
            assert(column_views(cols@)[p as int] == cols@[p as int]@);
        }
        let ghost before = out@;
        out.push(copy_column(&cols[p]));
        assert(column_views(out@) =~= column_views(before).push(cond@.columns[p as int]));
        i = i + 1;
        assert(column_views(out@) =~= texts(names@).take(i as int).map_values(
            |n: Seq<char>| cond@.columns[first_of(cond@.names, n)],
        ));
    }
    assert(texts(names@).take(i as int) =~= texts(names@));
    let ix = copy_index(cond.index());
    proof {
        assert forall|k: int| 0 <= k < out@.len() implies #[trigger] out@[k]@.len() == ix@.kind.len() by {
            assert(column_views(out@)[k] == out@[k]@);
            let n = texts(names@)[k];
            lemma_count_first(cond@.names, n);
            let p = first_of(cond@.names, n);
            assert(is_first_pos(cond@.names, n, p));
            assert(cond@.columns[p].len() == cond@.index.kind.len());
        }
    }
    let owned = crate::frame::clone_texts(names);
    match Frame::new(owned, out, Some(ix)) {
        Ok(g) => g,
        Err(_) => {
            proof {
                assert(false);
            }
            cond.duplicate()
        },
    }
}

/// Line up the condition of `where` / `mask` with the frame: it must have
/// the frame's shape (else a `Value` error), the same column names each as
/// often, paired by name and not by position (else a `Value` error), the same
/// index once paired (else a `Value` error), and only boolean columns (else a
/// `Type` error). The result is the condition in the frame's column order.
pub fn align_condition(base: &Frame, cond: &Frame) -> (r: Result<Frame, VolasError>)
    requires
        base@.wf(),
        cond@.wf(),
    ensures
        match r {
            Ok(c) => {
                &&& base@.columns.len() == cond@.columns.len()
                &&& base@.height() == cond@.height()
                &&& same_names(base@.names, cond@.names)
                &&& c@ == aligned(base@, cond@)
                &&& c@.index == base@.index
                &&& all_bool(c@.columns)
            },
            Err(e) => {
                ||| (base@.columns.len() != cond@.columns.len() || base@.height() != cond@.height()) && e is Value
                ||| (base@.columns.len() == cond@.columns.len() && base@.height() == cond@.height()
                    && !same_names(base@.names, cond@.names) && e is Value)
                ||| (base@.columns.len() == cond@.columns.len() && base@.height() == cond@.height()
                    && same_names(base@.names, cond@.names) && aligned(base@, cond@).index != base@.index
                    && e is Value)
                ||| (base@.columns.len() == cond@.columns.len() && base@.height() == cond@.height()
                    && same_names(base@.names, cond@.names) && aligned(base@, cond@).index == base@.index
                    && !all_bool(aligned(base@, cond@).columns) && e is Type)
            },
        },
{
    if cond.width() != base.width() || cond.height() != base.height() {
        return Err(VolasError::Value("where/mask: `cond` must have the same shape as the frame".to_owned()));
    }
    let bn = base.names();
    let cn = cond.names();
    let mut i: usize = 0;
    while i < bn.len()
        invariant
            texts(bn@) == base@.names,
            texts(cn@) == cond@.names,
            base@.wf(),
            cond@.wf(),
            base@.columns.len() == cond@.columns.len(),
            base@.height() == cond@.height(),
            i <= bn@.len(),
            forall|k: int| 0 <= k < i ==> count_of(base@.names, #[trigger] base@.names[k]) == count_of(cond@.names, base@.names[k]),
        decreases bn.len() - i,
    {
        assert(texts(bn@)[i as int] == bn@[i as int]@);
        if count_name(bn, bn[i].as_str()) != count_name(cn, bn[i].as_str()) {
            return Err(VolasError::Value(
                "where/mask: `cond` columns must match the frame's columns by name".to_owned(),
            ));
        }
        i = i + 1;
    }
    let c = if names_equal(cn, bn) {
        cond.duplicate()
    } else {
        proof {
            assert forall|q: int| 0 <= q < bn@.len() implies cond@.names.contains(#[trigger] texts(bn@)[q]) by {
                let n = base@.names[q];
                assert(base@.names.contains(n)) by {
                    assert(base@.names[q] == n);
                }
                lemma_count_first(base@.names, n);
                lemma_count_first(cond@.names, n);
                assert(count_of(base@.names, base@.names[q]) == count_of(cond@.names, base@.names[q]));
                assert(texts(bn@)[q] == n);
            }
        }
        reorder(cond, bn)
    };
    assert(c@ == aligned(base@, cond@));
    if !index_eq(c.index(), base.index()) {
        return Err(VolasError::Value("where/mask: `cond` index must equal the frame's index".to_owned()));
    }
    let cols = c.columns();
    let mut j: usize = 0;
    while j < cols.len()
        invariant
            column_views(cols@) == c@.columns,
            c@ == aligned(base@, cond@),
            c@.index == base@.index,
            base@.columns.len() == cond@.columns.len(),
            base@.height() == cond@.height(),
            same_names(base@.names, cond@.names),
            j <= cols@.len(),
            forall|k: int| 0 <= k < j ==> #[trigger] c@.columns[k] is Bool,
        decreases cols.len() - j,
    {
        assert(column_views(cols@)[j as int] == cols@[j as int]@);
        match &cols[j] {
            Column::Bool(_) => {},
            other => {
                assert(!(c@.columns[j as int] is Bool));
                let mut m = "where/mask: `cond` must be a boolean frame, got a ".to_owned();
                m.append(other.dtype_name());
                m.append(" column");
                return Err(VolasError::Type(m));
            },
        }
        j = j + 1;
    }
    Ok(c)
}

} // verus!
