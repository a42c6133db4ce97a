//! Resolution of the positional (`iloc`) and label (`loc`) indexer selectors
//! to row and column positions.

use vstd::prelude::*;
use crate::error::VolasError;
use crate::frame::texts;
use crate::positions::{norm_idx, spec_strided, strided};

verus! {

/// A positional selector as the binding layer hands it over: a boolean mask,
/// one position, a slice whose `(start, stop, step)` were already resolved
/// against the axis length (as Python's `slice.indices` does), or a list of
/// positions. Positions may count from the end when negative.
pub enum PosSel {
    Mask(Vec<bool>),
    One(i64),
    Slice(i64, i64, i64),
    List(Vec<i64>),
}

/// A column selector of the label indexer: a name, a list of names, or an
/// inclusive name slice whose ends may be open.
pub enum NameSel {
    One(String),
    List(Vec<String>),
    Slice(Option<String>, Option<String>),
}

/// One axis of a two-axis selection: a single position (the axis is reduced
/// away) or a list of positions (the axis is kept).
pub enum AxisSel {
    One(usize),
    Many(Vec<usize>),
}

/// The positions of the `true` entries of a mask, in order.
pub open spec fn true_positions(bits: Seq<bool>) -> Seq<int>
    decreases bits.len(),
{
    if bits.len() == 0 {
        Seq::empty()
    } else {
        let rest = true_positions(bits.drop_last());
        if bits.last() {
            rest.push(bits.len() - 1)
        } else {
            rest
        }
    }
}


/// Every position a mask picks is one of its rows, and a row is picked exactly
/// when its entry is `true`.
pub proof fn lemma_true_positions(bits: Seq<bool>)
    ensures
        true_positions(bits).len() <= bits.len(),
        forall|k: int| 0 <= k < true_positions(bits).len() ==> 0 <= #[trigger] true_positions(bits)[k] < bits.len(),
        forall|k: int| 0 <= k < true_positions(bits).len() ==> bits[#[trigger] true_positions(bits)[k]],
        forall|i: int| 0 <= i < bits.len() && bits[i] ==> #[trigger] true_positions(bits).contains(i),
    decreases bits.len(),
{
    if bits.len() > 0 {
        lemma_true_positions(bits.drop_last());
        let rest = true_positions(bits.drop_last());
        assert forall|i: int| 0 <= i < bits.len() && bits[i] implies #[trigger] true_positions(bits).contains(i) by {
            if i < bits.len() - 1 {
                assert(bits.drop_last()[i] == bits[i]);
                assert(rest.contains(i));
                let k = choose|k: int| 0 <= k < rest.len() && rest[k] == i;
                assert(true_positions(bits)[k] == i);
            } else {
                assert(true_positions(bits)[rest.len() as int] == i);
            }
        }
        assert forall|k: int| 0 <= k < true_positions(bits).len() implies bits[#[trigger] true_positions(bits)[k]] by {
            if k < rest.len() {
                assert(bits.drop_last()[rest[k]] == bits[rest[k]]);
            }
        }
    }
}


/// The positions a mask picks come in increasing order.
pub proof fn lemma_true_positions_increasing(bits: Seq<bool>)
    ensures
        forall|a: int, b: int|
            0 <= a < b < true_positions(bits).len() ==> #[trigger] true_positions(bits)[a] < #[trigger] true_positions(bits)[b],
    decreases bits.len(),
{
    if bits.len() > 0 {
        lemma_true_positions_increasing(bits.drop_last());
        lemma_true_positions(bits.drop_last());
        let rest = true_positions(bits.drop_last());
        assert forall|a: int, b: int|
            0 <= a < b < true_positions(bits).len() implies #[trigger] true_positions(bits)[a] < #[trigger] true_positions(bits)[b] by {
            if b < rest.len() {
                assert(rest[a] < rest[b]);
            } else {
                assert(rest[a] < bits.drop_last().len());
            }
        }
    }
}

/// Whether position `i` (negative counts from the end) lies on an axis of
/// length `len`.
pub open spec fn in_axis(i: int, len: int) -> bool {
    -len <= i < len
}

/// Position `i` with a negative value counted from the end.
pub open spec fn norm_pos(i: int, len: int) -> int {
    if i < 0 { i + len } else { i }
}

/// Whether `(start, stop, step)` is a slice resolved against length `len`:
/// a nonzero step, with both ends in `0..=len` going up and in `-1..len`
/// going down.
pub open spec fn slice_resolved(start: int, stop: int, step: int, len: int) -> bool {
    &&& step != 0
    &&& step > 0 ==> 0 <= start <= len && 0 <= stop <= len
    &&& step < 0 ==> -1 <= start < len && -1 <= stop < len
}

/// Whether a selector's slice, if it is one, was resolved against `len`.
pub open spec fn sel_resolved(sel: PosSel, len: int) -> bool {
    match sel {
        PosSel::Slice(a, b, c) => slice_resolved(a as int, b as int, c as int, len),
        _ => true,
    }
}

/// The positions a selector picks on an axis of length `len`, or `None` when
/// it cannot be applied (a mask of another length, a position off the axis).
pub open spec fn spec_iloc_positions(sel: PosSel, len: int) -> Option<Seq<int>> {
    match sel {
        PosSel::Mask(b) => if b@.len() == len {
            Some(true_positions(b@))
        } else {
            None
        },
        PosSel::One(i) => if in_axis(i as int, len) {
            Some(seq![norm_pos(i as int, len)])
        } else {
            None
        },
        PosSel::Slice(a, b, c) => Some(spec_strided(a as int, b as int, c as int)),
        PosSel::List(v) => if forall|k: int| 0 <= k < v@.len() ==> in_axis(#[trigger] v@[k] as int, len) {
            Some(v@.map_values(|i: i64| norm_pos(i as int, len)))
        } else {
            None
        },
    }
}

/// Positions as integers.
pub open spec fn ints(v: Seq<usize>) -> Seq<int> {
    v.map_values(|p: usize| p as int)
}

/// Whether `p` is the first position of `name` among `names`.
pub open spec fn is_first_pos(names: Seq<Seq<char>>, name: Seq<char>, p: int) -> bool {
    0 <= p < names.len() && names[p] == name && !names.take(p).contains(name)
}

/// The positions `lo..=hi`.
pub open spec fn pos_range(lo: int, hi: int) -> Seq<int> {
    Seq::new(if hi >= lo { (hi - lo + 1) as nat } else { 0 }, |k: int| lo + k)
}

/// The positions of the `true` entries of `bits`, when it has one entry per
/// row of an axis of length `len`; `None` otherwise.
pub fn as_bool_mask(bits: &Vec<bool>, len: usize) -> (r: Option<Vec<usize>>)
    ensures
        match r {
            Some(v) => bits@.len() == len && ints(v@) == true_positions(bits@),
            None => bits@.len() != len,
        },
{
    if bits.len() != len {
        return None;
    }
    let mut out: Vec<usize> = Vec::new();
    let mut i: usize = 0;
    while i < bits.len()
        invariant
            i <= bits@.len(),
            ints(out@) == true_positions(bits@.take(i as int)),
        decreases bits.len() - i,
    {
        assert(bits@.take(i + 1).drop_last() =~= bits@.take(i as int));
        if bits[i] {
            out.push(i);
        }
        i = i + 1;
        assert(ints(out@) =~= true_positions(bits@.take(i as int)));
    }
    assert(bits@.take(i as int) =~= bits@);
    Some(out)
}

fn normalize_list(v: &Vec<i64>, len: usize) -> (r: Result<Vec<usize>, VolasError>)
    requires
        len <= i64::MAX,
    ensures
        match r {
            Ok(out) => (forall|k: int| 0 <= k < v@.len() ==> in_axis(#[trigger] v@[k] as int, len as int))
                && ints(out@) == v@.map_values(|i: i64| norm_pos(i as int, len as int)),
            Err(e) => !(forall|k: int| 0 <= k < v@.len() ==> in_axis(#[trigger] v@[k] as int, len as int))
                && e is Index,
        },
{
    let mut out: Vec<usize> = Vec::new();
    let mut k: usize = 0;
    while k < v.len()
        invariant
            len <= i64::MAX,
            k <= v@.len(),
            forall|j: int| 0 <= j < k ==> in_axis(#[trigger] v@[j] as int, len as int),
            ints(out@) == v@.take(k as int).map_values(|i: i64| norm_pos(i as int, len as int)),
        decreases v.len() - k,
    {
        match norm_idx(v[k], len) {
            Ok(p) => {
                let ghost before = out@;
                out.push(p);
                assert(ints(out@) =~= ints(before).push(p as int));
                assert(v@.take(k + 1) =~= v@.take(k as int).push(v@[k as int]));
                k = k + 1;
                assert(ints(out@) =~= v@.take(k as int).map_values(|i: i64| norm_pos(i as int, len as int)));
            },
            Err(e) => {
                assert(!in_axis(v@[k as int] as int, len as int));
                return Err(e);
            },
        }
    }
    assert(v@.take(k as int) =~= v@);
    Ok(out)
}

fn strided_positions(start: i64, stop: i64, step: i64, len: usize) -> (r: Vec<usize>)
    requires
        slice_resolved(start as int, stop as int, step as int, len as int),
    ensures
        ints(r@) == spec_strided(start as int, stop as int, step as int),
{
    let v = strided(start, stop, step);
    assert(ints(v@) =~= spec_strided(start as int, stop as int, step as int));
    v
}

/// The row positions a positional selector picks on an axis of length `len`.
/// A mask of another length is a `Type` error; a position off the axis is an
/// `Index` error.
pub fn iloc_positions(sel: &PosSel, len: usize) -> (r: Result<Vec<usize>, VolasError>)
    requires
        len <= i64::MAX,
        sel_resolved(*sel, len as int),
    ensures
        match r {
            Ok(v) => spec_iloc_positions(*sel, len as int) == Some(ints(v@)),
            Err(e) => spec_iloc_positions(*sel, len as int) is None && (if sel is Mask {
                e is Type
            } else {
                e is Index
            }),
        },
{
    match sel {
        PosSel::Mask(bits) => match as_bool_mask(bits, len) {
            Some(v) => Ok(v),
            None => Err(VolasError::Type(
                "iloc row selector must be an int, slice, int list, or boolean mask".to_owned(),
            )),
        },
        PosSel::One(i) => {
            let p = norm_idx(*i, len)?;
            let mut v: Vec<usize> = Vec::new();
            v.push(p);
            assert(ints(v@) =~= seq![norm_pos(*i as int, len as int)]);
            Ok(v)
        },
        PosSel::Slice(a, b, c) => Ok(strided_positions(*a, *b, *c, len)),
        PosSel::List(v) => normalize_list(v, len),
    }
}

/// One row axis of a positional selection: a single position reduces the
/// axis; a mask, slice or list keeps it (see [`iloc_positions`]).
pub fn iloc_row_axis(sel: &PosSel, len: usize) -> (r: Result<AxisSel, VolasError>)
    requires
        len <= i64::MAX,
        sel_resolved(*sel, len as int),
    ensures
        match sel {
            PosSel::One(i) => match r {
                Ok(AxisSel::One(p)) => in_axis(*i as int, len as int) && p == norm_pos(*i as int, len as int),
                Ok(AxisSel::Many(_)) => false,
                Err(e) => !in_axis(*i as int, len as int) && e is Index,
            },
            _ => match r {
                Ok(AxisSel::Many(v)) => spec_iloc_positions(*sel, len as int) == Some(ints(v@)),
                Ok(AxisSel::One(_)) => false,
                Err(e) => spec_iloc_positions(*sel, len as int) is None && (if sel is Mask {
                    e is Type
                } else {
                    e is Index
                }),
            },
        },
{
    match sel {
        PosSel::One(i) => Ok(AxisSel::One(norm_idx(*i, len)?)),
        _ => Ok(AxisSel::Many(iloc_positions(sel, len)?)),
    }
}

/// One column axis of a positional selection: a single position reduces the
/// axis; a slice or list keeps it. A mask is a `Type` error; a position off
/// the axis is an `Index` error.
pub fn iloc_col_axis(sel: &PosSel, width: usize) -> (r: Result<AxisSel, VolasError>)
    requires
        width <= i64::MAX,
        sel_resolved(*sel, width as int),
    ensures
        match sel {
            PosSel::One(j) => match r {
                Ok(AxisSel::One(p)) => in_axis(*j as int, width as int) && p == norm_pos(*j as int, width as int),
                Ok(AxisSel::Many(_)) => false,
                Err(e) => !in_axis(*j as int, width as int) && e is Index,
            },
            PosSel::Mask(_) => match r {
                Err(e) => e is Type,
                Ok(_) => false,
            },
            _ => match r {
                Ok(AxisSel::Many(v)) => spec_iloc_positions(*sel, width as int) == Some(ints(v@)),
                Ok(AxisSel::One(_)) => false,
                Err(e) => spec_iloc_positions(*sel, width as int) is None && e is Index,
            },
        },
{
    match sel {
        PosSel::One(j) => Ok(AxisSel::One(norm_idx(*j, width)?)),
        PosSel::Slice(a, b, c) => Ok(AxisSel::Many(strided_positions(*a, *b, *c, width))),
        PosSel::List(v) => Ok(AxisSel::Many(normalize_list(v, width)?)),
        PosSel::Mask(_) => Err(VolasError::Type(
            "iloc column selector must be an int, slice, or int list".to_owned(),
        )),
    }
}

/// The position of the first column called `name`; a `Key` error when there
/// is none.
pub fn column_pos(names: &Vec<String>, name: &str) -> (r: Result<usize, VolasError>)
    ensures
        match r {
            Ok(p) => is_first_pos(texts(names@), name@, p as int),
            Err(e) => !texts(names@).contains(name@) && e is Key,
        },
{
    let mut j: usize = 0;
    while j < names.len()
        invariant
            j <= names@.len(),
            forall|k: int| 0 <= k < j ==> texts(names@)[k] != name@,
        decreases names.len() - j,
    {
        assert(texts(names@)[j as int] == names@[j as int]@);
        if crate::text::same_text(names[j].as_str(), name) {
            assert(!texts(names@).take(j as int).contains(name@)) by {
                if texts(names@).take(j as int).contains(name@) {
                    let k = choose|k: int| 0 <= k < j && texts(names@).take(j as int)[k] == name@;
                    assert(texts(names@)[k] != name@);
                }
            }
            return Ok(j);
        }
        j = j + 1;
    }
    assert(!texts(names@).contains(name@)) by {
        if texts(names@).contains(name@) {
            let k = choose|k: int| 0 <= k < texts(names@).len() && texts(names@)[k] == name@;
            assert(texts(names@)[k] != name@);
        }
    }
    let mut m = "column \"".to_owned();
    m.append(name);
    m.append("\" not found");
    Err(VolasError::Key(m))
}

/// The column axis of a label selection over columns `names`: a name reduces
/// the axis; a list of names keeps it in the listed order; a slice keeps the
/// columns from its first end to its last, both included (an open start is the
/// first column, an open stop the last). A missing name is a `Key` error.
pub fn loc_col_axis(sel: &NameSel, names: &Vec<String>) -> (r: Result<AxisSel, VolasError>)
    ensures
        match sel {
            NameSel::One(n) => match r {
                Ok(AxisSel::One(p)) => is_first_pos(texts(names@), n@, p as int),
                Ok(AxisSel::Many(_)) => false,
                Err(e) => !texts(names@).contains(n@) && e is Key,
            },
            NameSel::List(ns) => match r {
                Ok(AxisSel::Many(v)) => v@.len() == ns@.len() && forall|k: int|
                    0 <= k < v@.len() ==> is_first_pos(texts(names@), #[trigger] ns@[k]@, v@[k] as int),
                Ok(AxisSel::One(_)) => false,
                Err(e) => (exists|k: int| 0 <= k < ns@.len() && !texts(names@).contains(#[trigger] ns@[k]@))
                    && e is Key,
            },
            NameSel::Slice(lo, hi) => match r {
                Ok(AxisSel::Many(v)) => exists|a: int, b: int|
                    (match lo {
                        Some(n) => is_first_pos(texts(names@), n@, a),
                        None => a == 0,
                    }) && (match hi {
                        Some(n) => is_first_pos(texts(names@), n@, b),
                        None => b == if names@.len() > 0 { names@.len() - 1 } else { 0 },
                    }) && ints(v@) == pos_range(a, b),
                Ok(AxisSel::One(_)) => false,
                Err(e) => ((match lo {
                    Some(n) => !texts(names@).contains(n@),
                    None => false,
                }) || (match hi {
                    Some(n) => !texts(names@).contains(n@),
                    None => false,
                })) && e is Key,
            },
        },
{
    match sel {
        NameSel::One(n) => Ok(AxisSel::One(column_pos(names, n.as_str())?)),
        NameSel::List(ns) => {
            let mut out: Vec<usize> = Vec::new();
            let mut k: usize = 0;
            while k < ns.len()
                invariant
                    match *sel {
                        NameSel::List(x) => x@ == ns@,
                        _ => false,
                    },
                    k <= ns@.len(),
                    out@.len() == k,
                    forall|j: int| 0 <= j < k ==> is_first_pos(texts(names@), #[trigger] ns@[j]@, out@[j] as int),
                decreases ns.len() - k,
            {
                match column_pos(names, ns[k].as_str()) {
                    Ok(p) => {
                        out.push(p);
                        k = k + 1;
                    },
                    Err(e) => {
                        assert(!texts(names@).contains(ns@[k as int]@));
                        assert(exists|j: int| 0 <= j < ns@.len() && !texts(names@).contains(#[trigger] ns@[j]@));
                        return Err(e);
                    },
                }
            }
            Ok(AxisSel::Many(out))
        },
        NameSel::Slice(lo, hi) => {
            let a: usize = match lo {
                Some(n) => column_pos(names, n.as_str())?,
                None => 0,
            };
            let b: usize = match hi {
                Some(n) => column_pos(names, n.as_str())?,
                None => if names.len() > 0 { names.len() - 1 } else { 0 },
            };
            assert(texts(names@).len() == names@.len());
            let n: usize = names.len();
            assert(b < n || b == 0);
            let mut out: Vec<usize> = Vec::new();
            if a <= b {
                let mut p: usize = a;
                while p <= b
                    invariant
                        a <= p <= b + 1,
                        b < usize::MAX,
                        ints(out@) == pos_range(a as int, p as int - 1),
                    decreases b + 1 - p,
                {
                    let ghost before = out@;
                    out.push(p);
                    assert(ints(out@) =~= ints(before).push(p as int));
                    p = p + 1;
                    assert(ints(out@) =~= pos_range(a as int, p as int - 1));
                }
            }
            assert(ints(out@) =~= pos_range(a as int, b as int));
            Ok(AxisSel::Many(out))
        },
    }
}

} // verus!
