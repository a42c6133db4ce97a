//! Building a frame: the `columns` projection, a frame from named columns,
//! and the retention bound of a windowed frame.

use vstd::prelude::*;
use crate::error::VolasError;
use crate::frame::{column_views, texts, Column, ColumnView, Frame, FrameView, IndexKindView, IndexView};
use crate::reshape::{copy_column, copy_index, pick};
use crate::select::{column_pos, ints, is_first_pos};
use crate::text::same_text;

verus! {

/// Check a `cumulators` argument: aggregators say how bars fold into a time
/// frame, so they are given only with one; without one, a `Value` error.
pub fn check_cumulators_arg(has_time_frame: bool, has_cumulators: bool) -> (r: Result<(), VolasError>)
    ensures
        r is Err <==> has_cumulators && !has_time_frame,
        r matches Err(e) ==> e is Value,
{
    if has_cumulators && !has_time_frame {
        return Err(VolasError::Value("cumulators requires time_frame".to_owned()));
    }
    Ok(())
}

/// Check a `columns` argument: when given it must be non-empty and name no
/// column twice; either fault is a `Value` error.
pub fn check_columns_arg(columns: &Option<Vec<String>>) -> (r: Result<(), VolasError>)
    ensures
        match columns {
            None => r is Ok,
            Some(cs) => (r is Ok <==> cs@.len() > 0 && texts(cs@).no_duplicates()) && (r matches Err(e)
                ==> e is Value),
        },
{
    match columns {
        None => Ok(()),
        Some(cs) => {
            if cs.len() == 0 {
                return Err(VolasError::Value("columns must not be empty".to_owned()));
            }
            let ghost t = texts(cs@);
            let mut a: usize = 0;
            while a < cs.len()
                invariant
                    match *columns {
                        Some(x) => x@ == cs@,
                        None => false,
                    },
                    t == texts(cs@),
                    a <= cs@.len(),
                    forall|x: int, y: int| 0 <= x < a && x < y < t.len() ==> t[x] != t[y],
                decreases cs.len() - a,
            {
                let mut b: usize = a + 1;
                while b < cs.len()
                    invariant
                        match *columns {
                            Some(x) => x@ == cs@,
                            None => false,
                        },
                        t == texts(cs@),
                        a < cs@.len(),
                        a + 1 <= b <= cs@.len(),
                        forall|x: int, y: int| 0 <= x < a && x < y < t.len() ==> t[x] != t[y],
                        forall|y: int| a < y < b ==> t[a as int] != t[y],
                    decreases cs.len() - b,
                {
                    assert(t[a as int] == cs@[a as int]@);
                    assert(t[b as int] == cs@[b as int]@);
                    if same_text(cs[a].as_str(), cs[b].as_str()) {
                        assert(!t.no_duplicates());
                        let mut m = "duplicate column \"".to_owned();
                        m.append(cs[a].as_str());
                        m.append("\" in columns");
                        return Err(VolasError::Value(m));
                    }
                    b = b + 1;
                }
                a = a + 1;
            }
            Ok(())
        },
    }
}

/// The frame with only the columns named in `names`, in that order (each
/// the first column so called).
pub open spec fn spec_select(own: Seq<Seq<char>>, names: Seq<Seq<char>>, pos: Seq<int>) -> bool {
    &&& pos.len() == names.len()
    &&& forall|k: int| 0 <= k < pos.len() ==> is_first_pos(own, #[trigger] names[k], pos[k])
}

/// The names of `(name, column)` pairs.
pub open spec fn pair_names(pairs: Seq<(String, Column)>) -> Seq<Seq<char>> {
    pairs.map_values(|p: (String, Column)| p.0@)
}

/// The columns of `(name, column)` pairs.
pub open spec fn pair_columns(pairs: Seq<(String, Column)>) -> Seq<ColumnView> {
    pairs.map_values(|p: (String, Column)| p.1@)
}

impl Frame {
    /// Project onto the columns named in `names`, in that order; a name that
    /// is not a column is a `Key` error.
    pub fn select(&self, names: &Vec<String>) -> (r: Result<Frame, VolasError>)
        requires
            self@.wf(),
        ensures
            match r {
                Ok(g) => exists|pos: Seq<int>| #[trigger] spec_select(self@.names, texts(names@), pos) && g@ == (FrameView {
                    names: pick(self@.names, pos),
                    columns: pick(self@.columns, pos),
                    index: self@.index,
                }) && g@.wf(),
                Err(e) => (exists|k: int| 0 <= k < names@.len() && !self@.names.contains(#[trigger] texts(names@)[k]))
                    && e is Key,
            },
    {
        let own = self.names();
        let mut pos: Vec<usize> = Vec::new();
        let mut k: usize = 0;
        while k < names.len()
            invariant
                texts(own@) == self@.names,
                k <= names@.len(),
                pos@.len() == k,
                forall|j: int| 0 <= j < k ==> is_first_pos(self@.names, #[trigger] texts(names@)[j], pos@[j] as int),
            decreases names.len() - k,
        {
            assert(texts(names@)[k as int] == names@[k as int]@);
            match column_pos(own, names[k].as_str()) {
                Ok(p) => {
                    pos.push(p);
                    k = k + 1;
                },
                Err(e) => {
                    assert(!self@.names.contains(texts(names@)[k as int]));
                    return Err(e);
                },
            }
        }
        proof {
            assert forall|j: int| 0 <= j < pos@.len() implies pos@[j] < self@.columns.len() by {
                assert(is_first_pos(self@.names, texts(names@)[j], pos@[j] as int));
            }
        }
        let g = crate::reshape::project_positions(self, &pos);
        proof {
            assert(spec_select(self@.names, texts(names@), ints(pos@)));
        }
        Ok(g)
    }
}

/// Whether all columns have the length of the first.
pub open spec fn lengths_agree(cols: Seq<ColumnView>) -> bool {
    forall|j: int| 0 <= j < cols.len() ==> #[trigger] cols[j].len() == cols[0].len()
}

/// A frame of `names` / `cols` over a range index.
fn range_frame(names: Vec<String>, cols: Vec<Column>) -> (r: Result<Frame, VolasError>)
    requires
        names@.len() == cols@.len(),
    ensures
        match r {
            Ok(g) => lengths_agree(column_views(cols@)) && g@.names == texts(names@) && g@.columns == column_views(
                cols@,
            ) && g@.wf() && g@.index.kind is Range && g@.index.name is None,
            Err(e) => !lengths_agree(column_views(cols@)) && e is Value,
        },
{
    let ghost cv = column_views(cols@);
    let ghost cs = cols@;
    let ghost ns = names@;
    match Frame::new(names, cols, None) {
        Ok(f) => {
            assert(f@.columns == cv);
            assert forall|j: int| 0 <= j < cv.len() implies #[trigger] cv[j].len() == cv[0].len() by {
                assert(f@.columns[j].len() == f@.index.kind.len());
                assert(f@.columns[0].len() == f@.index.kind.len());
            }
            Ok(f)
        },
        Err(_) => {
            assert(!lengths_agree(cv)) by {
                if lengths_agree(cv) {
                    assert forall|j: int| 0 <= j < cs.len() implies #[trigger] cs[j]@.len() == cs[0]@.len() by {
                        assert(cv[j] == cs[j]@);
                        assert(cv[0] == cs[0]@);
                    }
                }
            }
            Err(VolasError::Value("the columns differ in length".to_owned()))
        },
    }
}

/// A frame from `(name, column)` pairs (the entries of a dict of columns)
/// over a range index: all pairs in order, or with `columns` only the named
/// ones in that order, each the first pair so named (a name no pair has is a
/// `Key` error). Columns of unequal lengths are a `Value` error.
pub fn frame_from_columns(pairs: &Vec<(String, Column)>, columns: &Option<Vec<String>>) -> (r: Result<Frame, VolasError>)
    ensures
        match columns {
            None => match r {
                Ok(g) => lengths_agree(pair_columns(pairs@)) && g@.names == pair_names(pairs@) && g@.columns
                    == pair_columns(pairs@),
                Err(e) => !lengths_agree(pair_columns(pairs@)) && e is Value,
            },
            Some(cs) => match r {
                Ok(g) => g@.names == texts(cs@) && exists|pos: Seq<int>|
                    #[trigger] spec_select(pair_names(pairs@), texts(cs@), pos) && lengths_agree(
                        pick(pair_columns(pairs@), pos),
                    ) && g@.columns == pick(pair_columns(pairs@), pos),
                Err(e) => ((exists|k: int| 0 <= k < cs@.len() && !pair_names(pairs@).contains(
                    #[trigger] texts(cs@)[k],
                )) && e is Key) || ((exists|pos: Seq<int>|
                    #[trigger] spec_select(pair_names(pairs@), texts(cs@), pos) && !lengths_agree(
                        pick(pair_columns(pairs@), pos),
                    )) && e is Value),
            },
        },
        r matches Ok(g) ==> g@.wf() && g@.index.kind is Range && g@.index.name is None,
{
    let ghost pn = pair_names(pairs@);
    let ghost pc = pair_columns(pairs@);
    let mut names: Vec<String> = Vec::new();
    let mut i: usize = 0;
    while i < pairs.len()
        invariant
            pn == pair_names(pairs@),
            i <= pairs@.len(),
            texts(names@) == pn.take(i as int),
        decreases pairs.len() - i,
    {
        let ghost bn = names@;
        names.push(pairs[i].0.clone());
        assert(texts(names@) =~= texts(bn).push(pn[i as int]));
        i = i + 1;
        assert(texts(names@) =~= pn.take(i as int));
    }
    assert(pn.take(i as int) =~= pn);
    let pos: Vec<usize> = match columns {
        None => {
            let mut v: Vec<usize> = Vec::new();
            let mut j: usize = 0;
            while j < pairs.len()
                invariant
                    j <= pairs@.len(),
                    v@.len() == j,
                    forall|q: int| 0 <= q < j ==> v@[q] == q,
                decreases pairs.len() - j,
            {
                v.push(j);
                j = j + 1;
            }
            v
        },
        Some(cs) => {
            let mut v: Vec<usize> = Vec::new();
            let mut k: usize = 0;
            while k < cs.len()
                invariant
                    match *columns {
                        Some(x) => x@ == cs@,
                        None => false,
                    },
                    texts(names@) == pn,
                    pn == pair_names(pairs@),
                    k <= cs@.len(),
                    v@.len() == k,
                    forall|j: int| 0 <= j < k ==> is_first_pos(pn, #[trigger] texts(cs@)[j], v@[j] as int),
                decreases cs.len() - k,
            {
                assert(texts(cs@)[k as int] == cs@[k as int]@);
                match column_pos(&names, cs[k].as_str()) {
                    Ok(p) => {
                        v.push(p);
                        k = k + 1;
                    },
                    Err(e) => {
                        assert(!pn.contains(texts(cs@)[k as int]));
                        return Err(e);
                    },
                }
            }
            v
        },
    };
    let mut out_names: Vec<String> = Vec::new();
    let mut cols: Vec<Column> = Vec::new();
    let mut k: usize = 0;
    proof {
        assert forall|q: int| 0 <= q < pos@.len() implies pos@[q] < pairs@.len() by {
            match columns {
                Some(cs) => {
                    assert(is_first_pos(pn, texts(cs@)[q], pos@[q] as int));
                },
                None => {},
            }
        }
    }
    while k < pos.len()
        invariant
            pn == pair_names(pairs@),
            pc == pair_columns(pairs@),
            forall|q: int| 0 <= q < pos@.len() ==> pos@[q] < pairs@.len(),
            k <= pos@.len(),
            texts(out_names@) == pick(pn, ints(pos@.take(k as int))),
            column_views(cols@) == pick(pc, ints(pos@.take(k as int))),
        decreases pos.len() - k,
    {
        let p = pos[k];
        let ghost (bn, bc) = (out_names@, cols@);
        out_names.push(pairs[p].0.clone());
        cols.push(copy_column(&pairs[p].1));
        assert(texts(out_names@) =~= texts(bn).push(pn[p as int]));
        assert(column_views(cols@) =~= column_views(bc).push(pc[p as int]));
        assert(ints(pos@.take(k + 1)) =~= ints(pos@.take(k as int)).push(p as int));
        k = k + 1;
        assert(texts(out_names@) =~= pick(pn, ints(pos@.take(k as int))));
        assert(column_views(cols@) =~= pick(pc, ints(pos@.take(k as int))));
    }
    assert(pos@.take(k as int) =~= pos@);
    proof {
        match columns {
            None => {
                assert(ints(pos@) =~= Seq::new(pairs@.len(), |q: int| q));
                assert(pick(pn, ints(pos@)) =~= pn);
                assert(pick(pc, ints(pos@)) =~= pc);
            },
            Some(cs) => {
                assert(spec_select(pn, texts(cs@), ints(pos@)));
                assert(pick(pn, ints(pos@)) =~= texts(cs@)) by {
                    assert forall|q: int| 0 <= q < pos@.len() implies pick(pn, ints(pos@))[q] == texts(cs@)[q] by {
                        assert(is_first_pos(pn, texts(cs@)[q], pos@[q] as int));
                    }
                }
            },
        }
    }
    range_frame(out_names, cols)
}

/// The retention bound of a windowed frame: `None` without a window (and
/// then no lookback may be given); with a window, which must be positive,
/// the window plus the lookback bound, which must be given. Any fault is a
/// `Value` error.
pub fn window_capacity(window: Option<usize>, max_lookback: Option<usize>) -> (r: Result<Option<usize>, VolasError>)
    requires
        window matches Some(w) && max_lookback matches Some(l) ==> w + l <= usize::MAX,
    ensures
        match r {
            Ok(c) => match window {
                None => max_lookback is None && c is None,
                Some(w) => w > 0 && max_lookback is Some && c == Some((w + max_lookback.unwrap()) as usize),
            },
            Err(e) => e is Value && match window {
                None => max_lookback is Some,
                Some(w) => w == 0 || max_lookback is None,
            },
        },
{
    match window {
        None => {
            if max_lookback.is_some() {
                return Err(VolasError::Value("max_lookback only applies to a windowed frame; pass window=".to_owned()));
            }
            Ok(None)
        },
        Some(w) => {
            if w == 0 {
                return Err(VolasError::Value("window must be a positive integer".to_owned()));
            }
            match max_lookback {
                None => Err(VolasError::Value(
                    "a windowed frame needs its lookback bound; pass max_lookback=".to_owned(),
                )),
                Some(l) => Ok(Some(w + l)),
            }
        },
    }
}

/// A windowed frame keeps at most `capacity` rows: the last ones.
pub fn retain_tail(f: &Frame, capacity: Option<usize>) -> (r: Frame)
    requires
        f@.wf(),
    ensures
        r@ == match capacity {
            Some(c) => if f@.height() > c { f@.slice(f@.height() - c, f@.height() as int) } else { f@ },
            None => f@,
        },
{
    let n = f.height();
    match capacity {
        Some(c) => if n > c {
            f.slice(n - c, n)
        } else {
            f.duplicate()
        },
        None => f.duplicate(),
    }
}

/// The rows a windowed frame shows, as `(start, len)`: the last `window`
/// rows (or all when fewer); all rows of an unbounded frame.
pub fn logical_range(height: usize, window: Option<usize>) -> (r: (usize, usize))
    ensures
        r == match window {
            Some(w) => {
                let len = if height < w { height } else { w };
                ((height - len) as usize, len)
            },
            None => (0usize, height),
        },
{
    match window {
        Some(w) => {
            let len = if height < w { height } else { w };
            (height - len, len)
        },
        None => (0, height),
    }
}

} // verus!
