//! Sorting rows by their index labels, stably.

use vstd::prelude::*;
use vstd::string::*;
use crate::frame::{texts, Frame, FrameView, Index, IndexKind, IndexKindView};
use crate::reshape::{frame_take, label_at, LabelView};

verus! {

/// Lexicographic order of texts by character code (the order of their UTF-8
/// bytes).
pub open spec fn lex_lt(a: Seq<char>, b: Seq<char>) -> bool
    decreases a.len(),
{
    if a.len() == 0 {
        b.len() > 0
    } else if b.len() == 0 {
        false
    } else if a[0] != b[0] {
        (a[0] as int) < (b[0] as int)
    } else {
        lex_lt(a.drop_first(), b.drop_first())
    }
}

/// The order of labels: integers by value, texts lexicographically.
pub open spec fn label_lt(a: LabelView, b: LabelView) -> bool {
    match (a, b) {
        (LabelView::I64(x), LabelView::I64(y)) => x < y,
        (LabelView::Str(x), LabelView::Str(y)) => lex_lt(x, y),
        _ => false,
    }
}

/// Whether row `x` comes before row `y` when sorting by label (ascending or
/// not); rows with equal labels keep their order.
pub open spec fn goes_before(kind: IndexKindView, asc: bool, x: int, y: int) -> bool {
    let a = label_at(kind, x);
    let b = label_at(kind, y);
    (if asc { label_lt(a, b) } else { label_lt(b, a) }) || (a == b && x < y)
}

/// Whether `perm` lists every row once, sorted by label (ascending or not),
/// rows with equal labels in the order they had.
pub open spec fn sorted_perm(kind: IndexKindView, asc: bool, perm: Seq<usize>) -> bool {
    &&& perm.len() == kind.len()
    &&& forall|k: int| 0 <= k < perm.len() ==> #[trigger] perm[k] < kind.len()
    &&& perm.no_duplicates()
    &&& forall|a: int, b: int| 0 <= a < b < perm.len() ==> goes_before(kind, asc, #[trigger] perm[a] as int, #[trigger] perm[b] as int)
}

proof fn lemma_lex_irreflexive(a: Seq<char>)
    ensures
        !lex_lt(a, a),
    decreases a.len(),
{
    if a.len() > 0 {
        lemma_lex_irreflexive(a.drop_first());
    }
}

proof fn lemma_lex_total(a: Seq<char>, b: Seq<char>)
    ensures
        lex_lt(a, b) || lex_lt(b, a) || a == b,
    decreases a.len(),
{
    if a.len() > 0 && b.len() > 0 {
        if a[0] == b[0] {
            lemma_lex_total(a.drop_first(), b.drop_first());
            if a.drop_first() == b.drop_first() {
                assert(a =~= seq![a[0]] + a.drop_first());
                assert(b =~= seq![b[0]] + b.drop_first());
            }
        } else {
            assert((a[0] as int) != (b[0] as int));
        }
    } else if a.len() == 0 && b.len() == 0 {
        assert(a =~= b);
    }
}

proof fn lemma_lex_trans(a: Seq<char>, b: Seq<char>, c: Seq<char>)
    requires
        lex_lt(a, b),
        lex_lt(b, c),
    ensures
        lex_lt(a, c),
    decreases a.len(),
{
    if a.len() > 0 && b.len() > 0 && c.len() > 0 {
        if a[0] == b[0] && b[0] == c[0] {
            lemma_lex_trans(a.drop_first(), b.drop_first(), c.drop_first());
        }
    }
}

/// Labels of one kind are totally and transitively ordered.
proof fn lemma_label_order(a: LabelView, b: LabelView, c: LabelView)
    requires
        a is I64 == b is I64,
        b is I64 == c is I64,
    ensures
        !label_lt(a, a),
        label_lt(a, b) || label_lt(b, a) || a == b,
        label_lt(a, b) && label_lt(b, c) ==> label_lt(a, c),
{
    match (a, b, c) {
        (LabelView::Str(x), LabelView::Str(y), LabelView::Str(z)) => {
            lemma_lex_irreflexive(x);
            lemma_lex_total(x, y);
            if lex_lt(x, y) && lex_lt(y, z) {
                lemma_lex_trans(x, y, z);
            }
        },
        _ => {},
    }
}

/// Texts compared lexicographically by character code.
pub fn text_lt(a: &str, b: &str) -> (r: bool)
    ensures
        r == lex_lt(a@, b@),
{
    let n = a.unicode_len();
    let m = b.unicode_len();
    let mut i: usize = 0;
    assert(a@.skip(0) =~= a@);
    assert(b@.skip(0) =~= b@);
    while i < n && i < m
        invariant
            n == a@.len(),
            m == b@.len(),
            i <= n,
            i <= m,
            lex_lt(a@, b@) == lex_lt(a@.skip(i as int), b@.skip(i as int)),
        decreases n - i,
    {
        let x = a.get_char(i);
        let y = b.get_char(i);
        assert(a@.skip(i as int)[0] == x);
        assert(b@.skip(i as int)[0] == y);
        if x != y {
            return x < y;
        }
        assert(a@.skip(i as int).drop_first() =~= a@.skip(i + 1));
        assert(b@.skip(i as int).drop_first() =~= b@.skip(i + 1));
        i = i + 1;
    }
    assert(a@.skip(i as int).len() == n - i);
    assert(b@.skip(i as int).len() == m - i);
    i == n && i < m
}

fn label_lt_at(ix: &Index, x: usize, y: usize) -> (r: bool)
    requires
        x < ix@.kind.len(),
        y < ix@.kind.len(),
        ix@.kind.len() <= i64::MAX,
    ensures
        r == label_lt(label_at(ix@.kind, x as int), label_at(ix@.kind, y as int)),
{
    match &ix.kind {
        IndexKind::Range(_) => x < y,
        IndexKind::Int64(v) => v[x] < v[y],
        IndexKind::Datetime(v, _) => v[x] < v[y],
        IndexKind::Str(v) => {
            assert(texts(v@)[x as int] == v@[x as int]@);
            assert(texts(v@)[y as int] == v@[y as int]@);
            text_lt(v[x].as_str(), v[y].as_str())
        },
    }
}

/// Whether row `y`'s label sorts strictly after row `x`'s.
fn sorts_after(ix: &Index, asc: bool, y: usize, x: usize) -> (r: bool)
    requires
        x < ix@.kind.len(),
        y < ix@.kind.len(),
        ix@.kind.len() <= i64::MAX,
    ensures
        r == if asc {
            label_lt(label_at(ix@.kind, x as int), label_at(ix@.kind, y as int))
        } else {
            label_lt(label_at(ix@.kind, y as int), label_at(ix@.kind, x as int))
        },
{
    if asc { label_lt_at(ix, x, y) } else { label_lt_at(ix, y, x) }
}

/// Labels of one index are of one kind.
proof fn lemma_same_kind(kind: IndexKindView, x: int, y: int, z: int)
    ensures
        label_at(kind, x) is I64 == label_at(kind, y) is I64,
        label_at(kind, y) is I64 == label_at(kind, z) is I64,
{
}

/// The stable sorting permutation of an index's rows by label (see
/// [`sorted_perm`]).
pub fn argsort(ix: &Index, asc: bool) -> (r: Vec<usize>)
    requires
        ix@.kind.len() <= i64::MAX,
    ensures
        sorted_perm(ix@.kind, asc, r@),
{
    let n = ix.len();
    let ghost kind = ix@.kind;
    let mut perm: Vec<usize> = Vec::new();
    let mut i: usize = 0;
    while i < n
        invariant
            n == kind.len(),
            kind == ix@.kind,
            n <= i64::MAX,
            i <= n,
            perm@.len() == i,
            forall|k: int| 0 <= k < perm@.len() ==> #[trigger] perm@[k] < i,
            perm@.no_duplicates(),
            forall|a: int, b: int| 0 <= a < b < perm@.len() ==> goes_before(kind, asc, #[trigger] perm@[a] as int, #[trigger] perm@[b] as int),
        decreases n - i,
    {
        // the first place whose row goes after row i
        let mut p: usize = 0;
        while p < perm.len() && !sorts_after(ix, asc, perm[p], i)
            invariant
                n == kind.len(),
                kind == ix@.kind,
                n <= i64::MAX,
                i < n,
                perm@.len() == i,
                forall|k: int| 0 <= k < perm@.len() ==> #[trigger] perm@[k] < i,
                p <= perm@.len(),
                forall|q: int| 0 <= q < p ==> goes_before(kind, asc, #[trigger] perm@[q] as int, i as int),
            decreases perm.len() - p,
        {
            proof {
                let a = label_at(kind, perm@[p as int] as int);
                let b = label_at(kind, i as int);
                lemma_same_kind(kind, perm@[p as int] as int, i as int, i as int);
                lemma_label_order(a, b, b);
            }
            p = p + 1;
        }
        proof {
            assert forall|q: int| p <= q < perm@.len() implies goes_before(kind, asc, i as int, #[trigger] perm@[q] as int) by {
                let lp = label_at(kind, perm@[p as int] as int);
                let lq = label_at(kind, perm@[q as int] as int);
                let li = label_at(kind, i as int);
                lemma_same_kind(kind, i as int, perm@[p as int] as int, perm@[q as int] as int);
                lemma_label_order(li, lp, lq);
                lemma_label_order(lq, lp, li);
                lemma_label_order(lp, lq, li);
                lemma_label_order(li, lq, lp);
                if q > p {
                    assert(goes_before(kind, asc, perm@[p as int] as int, perm@[q as int] as int));
                }
            }
        }
        let ghost old_perm = perm@;
        perm.insert(p, i);
        proof {
            assert(perm@ =~= old_perm.insert(p as int, i));
            assert forall|k: int| 0 <= k < perm@.len() implies #[trigger] perm@[k] < i + 1 by {
                if k < p {
                    assert(perm@[k] == old_perm[k]);
                } else if k > p {
                    assert(perm@[k] == old_perm[k - 1]);
                }
            }
            assert forall|a: int, b: int| 0 <= a < perm@.len() && 0 <= b < perm@.len() && a != b implies perm@[a] != perm@[b] by {
                if a != p && b != p {
                    let a2 = if a < p { a } else { a - 1 };
                    let b2 = if b < p { b } else { b - 1 };
                    assert(perm@[a] == old_perm[a2]);
                    assert(perm@[b] == old_perm[b2]);
                } else if a == p {
                    let b2 = if b < p { b } else { b - 1 };
                    assert(perm@[b] == old_perm[b2]);
                } else {
                    let a2 = if a < p { a } else { a - 1 };
                    assert(perm@[a] == old_perm[a2]);
                }
            }
            assert forall|a: int, b: int| 0 <= a < b < perm@.len() implies goes_before(kind, asc, #[trigger] perm@[a] as int, #[trigger] perm@[b] as int) by {
                if b < p {
                    assert(perm@[a] == old_perm[a] && perm@[b] == old_perm[b]);
                } else if a > p {
                    assert(perm@[a] == old_perm[a - 1] && perm@[b] == old_perm[b - 1]);
                } else if a < p && b == p {
                    assert(perm@[a] == old_perm[a]);
                } else if a < p && b > p {
                    assert(perm@[a] == old_perm[a] && perm@[b] == old_perm[b - 1]);
                } else {
                    assert(perm@[b] == old_perm[b - 1]);
                }
            }
        }
        i = i + 1;
    }
    perm
}

impl Frame {
    /// The rows sorted by their index labels, ascending or descending, rows
    /// with equal labels keeping their order (see [`argsort`]).
    pub fn sort_index(&self, ascending: bool) -> (r: Frame)
        requires
            self@.wf(),
            self@.height() <= i64::MAX,
        ensures
            exists|perm: Seq<usize>| #[trigger] sorted_perm(self@.index.kind, ascending, perm) && r@ == frame_take(self@, perm),
            r@.wf(),
    {
        let perm = argsort(self.index(), ascending);
        proof {
            assert(sorted_perm(self@.index.kind, ascending, perm@));
        }
        self.take(&perm)
    }
}

} // verus!
