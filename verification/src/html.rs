//! The Jupyter HTML table of a frame, from already formatted cells.

use vstd::prelude::*;
use vstd::string::*;

use crate::frame::texts;
use crate::render::body_views;
use crate::text::{html_escape, nat_digits, spec_html_escape, u64_text};

verus! {

/// The strings one after the other.
pub open spec fn concat_all(s: Seq<Seq<char>>) -> Seq<char>
    decreases s.len(),
{
    if s.len() == 0 {
        seq![]
    } else {
        concat_all(s.drop_last()) + s.last()
    }
}

/// The fixed opening of the table: the scoped style and the header row's
/// blank index cell.
pub open spec fn html_open() -> Seq<char> {
    "<div>\n<style scoped>\n    .dataframe tbody tr th:only-of-type {\n        vertical-align: middle;\n    }\n\n    .dataframe tbody tr th {\n        vertical-align: top;\n    }\n\n    .dataframe thead th {\n        text-align: right;\n    }\n</style>\n<table border=\"1\" class=\"dataframe\">\n  <thead>\n    <tr style=\"text-align: right;\">\n      <th></th>\n"@
}

/// A header cell.
pub open spec fn th(s: Seq<char>) -> Seq<char> {
    "      <th>"@ + spec_html_escape(s) + "</th>\n"@
}

/// A data cell.
pub open spec fn td(s: Seq<char>) -> Seq<char> {
    "      <td>"@ + spec_html_escape(s) + "</td>\n"@
}

/// The row naming the index, when it has a name: the name, then a blank
/// header cell per column.
pub open spec fn html_name_row(iname: Option<Seq<char>>, ncols: nat) -> Seq<char> {
    match iname {
        Some(x) => "    <tr>\n"@ + th(x) + concat_all(Seq::new(ncols, |_j: int| "      <th></th>\n"@)) + "    </tr>\n"@,
        None => seq![],
    }
}

/// Body row `r`: its index label, then its cell of each column.
pub open spec fn html_row(idx: Seq<Seq<char>>, body: Seq<Seq<Seq<char>>>, r: int) -> Seq<char> {
    "    <tr>\n"@ + th(idx[r]) + concat_all(Seq::new(body.len(), |j: int| td(body[j][r]))) + "    </tr>\n"@
}

/// `cells` with a `...` row inserted at `k` when truncated.
pub open spec fn with_dots(cells: Seq<Seq<char>>, truncated: bool, k: int) -> Seq<Seq<char>> {
    if truncated { cells.insert(k, "..."@) } else { cells }
}

/// The HTML table pandas emits for a frame: the header of column names, the
/// index-name row when the index is named, one row per displayed row (with a
/// `...` row in the middle when truncated), and the `N rows × M columns`
/// note of a truncated table.
pub open spec fn spec_render_html(
    names: Seq<Seq<char>>,
    iname: Option<Seq<char>>,
    idx: Seq<Seq<char>>,
    body: Seq<Seq<Seq<char>>>,
    truncated: bool,
    n: nat,
) -> Seq<char> {
    let k = idx.len() / 2;
    let idx2 = with_dots(idx, truncated, k as int);
    let body2 = Seq::new(body.len(), |j: int| with_dots(body[j], truncated, k as int));
    html_open() + concat_all(names.map_values(|nm: Seq<char>| th(nm))) + "    </tr>\n"@ + html_name_row(
        iname,
        body.len(),
    ) + "  </thead>\n  <tbody>\n"@ + concat_all(Seq::new(idx2.len(), |r: int| html_row(idx2, body2, r)))
        + "  </tbody>\n</table>\n"@ + (if truncated {
        "<p>"@ + nat_digits(n) + " rows × "@ + nat_digits(names.len()) + " columns</p>\n"@
    } else {
        seq![]
    }) + "</div>"@
}

/// Appends a header cell.
fn push_th(out: &mut String, s: &str)
    ensures
        final(out)@ == old(out)@ + th(s@),
{
    proof {
        reveal_strlit("      <th>");
        reveal_strlit("</th>\n");
    }
    out.append("      <th>");
    out.append(html_escape(s).as_str());
    out.append("</th>\n");
}

/// Appends a data cell.
fn push_td(out: &mut String, s: &str)
    ensures
        final(out)@ == old(out)@ + td(s@),
{
    proof {
        reveal_strlit("      <td>");
        reveal_strlit("</td>\n");
    }
    out.append("      <td>");
    out.append(html_escape(s).as_str());
    out.append("</td>\n");
}

/// Render a frame as the Jupyter HTML table pandas emits, from its column
/// names, its index name, and the formatted index labels and cells (one list
/// per column) of the displayed rows.
pub fn render_html(
    names: &Vec<String>,
    iname: Option<&str>,
    idx: Vec<String>,
    body: Vec<Vec<String>>,
    truncated: bool,
    n: usize,
) -> (r: String)
    requires
        forall|j: int| 0 <= j < body.len() ==> (#[trigger] body@[j]).len() == idx.len(),
    ensures
        r@ == spec_render_html(
            texts(names@),
            match iname { Some(x) => Some(x@), None => None },
            texts(idx@),
            body_views(body@),
            truncated,
            n as nat,
        ),
{
    let ghost nv = texts(names@);
    let ghost iv = texts(idx@);
    let ghost bv = body_views(body@);
    let k = idx.len() / 2;
    let nb = body.len();
    let mut idx2 = idx;
    if truncated {
        idx2.insert(k, "...".to_owned());
        assert(texts(idx2@) =~= iv.insert(k as int, "..."@));
    }
    let ghost iv2 = texts(idx2@);
    assert(iv2 == with_dots(iv, truncated, k as int));
    let mut body2: Vec<Vec<String>> = Vec::new();
    let mut j: usize = 0;
    while j < nb
        invariant
            nb == body.len(),
            bv == body_views(body@),
            j <= nb,
            body2.len() == j,
            forall|q: int| 0 <= q < j ==> texts((#[trigger] body2@[q])@) == with_dots(bv[q], truncated, k as int),
            forall|q: int| 0 <= q < nb ==> (#[trigger] body@[q]).len() == iv.len(),
            iv == texts(idx@),
            k == iv.len() / 2,
            forall|q: int| 0 <= q < j ==> (#[trigger] body2@[q]).len() == iv2.len(),
            iv2 == with_dots(iv, truncated, k as int),
        decreases nb - j,
    {
        assert(bv[j as int] == texts(body@[j as int]@));
        let mut col = crate::frame::clone_texts(&body[j]);
        if truncated {
            col.insert(k, "...".to_owned());
            assert(texts(col@) =~= bv[j as int].insert(k as int, "..."@));
        }
        body2.push(col);
        j = j + 1;
    }
    let ghost bv2 = Seq::new(bv.len(), |q: int| with_dots(bv[q], truncated, k as int));
    assert forall|q: int| 0 <= q < nb implies #[trigger] texts(body2@[q]@) == bv2[q] by {}
    let mut out = String::new();
    proof {
        reveal_strlit("<div>\n<style scoped>\n    .dataframe tbody tr th:only-of-type {\n        vertical-align: middle;\n    }\n\n    .dataframe tbody tr th {\n        vertical-align: top;\n    }\n\n    .dataframe thead th {\n        text-align: right;\n    }\n</style>\n<table border=\"1\" class=\"dataframe\">\n  <thead>\n    <tr style=\"text-align: right;\">\n      <th></th>\n");
    }
    out.append("<div>\n<style scoped>\n    .dataframe tbody tr th:only-of-type {\n        vertical-align: middle;\n    }\n\n    .dataframe tbody tr th {\n        vertical-align: top;\n    }\n\n    .dataframe thead th {\n        text-align: right;\n    }\n</style>\n<table border=\"1\" class=\"dataframe\">\n  <thead>\n    <tr style=\"text-align: right;\">\n      <th></th>\n");
    let ghost p0 = out@;
    let ghost heads = nv.map_values(|nm: Seq<char>| th(nm));
    let mut j: usize = 0;
    while j < names.len()
        invariant
            j <= names.len(),
            nv == texts(names@),
            heads == nv.map_values(|nm: Seq<char>| th(nm)),
            out@ == p0 + concat_all(heads.take(j as int)),
        decreases names.len() - j,
    {
        push_th(&mut out, names[j].as_str());
        assert(heads.take(j + 1).drop_last() =~= heads.take(j as int));
        assert(nv[j as int] == names@[j as int]@);
        j = j + 1;
    }
    assert(heads.take(names.len() as int) =~= heads);
    proof {
        reveal_strlit("    </tr>\n");
    }
    out.append("    </tr>\n");
    let ghost p1 = out@;
    match iname {
        Some(x) => {
            proof {
                reveal_strlit("    <tr>\n");
                reveal_strlit("      <th></th>\n");
            }
            out.append("    <tr>\n");
            push_th(&mut out, x);
            let ghost p2 = out@;
            let ghost blanks = Seq::new(nb as nat, |_j: int| "      <th></th>\n"@);
            let mut j: usize = 0;
            while j < nb
                invariant
                    j <= nb,
                    blanks == Seq::new(nb as nat, |_j: int| "      <th></th>\n"@),
                    out@ == p2 + concat_all(blanks.take(j as int)),
                decreases nb - j,
            {
                out.append("      <th></th>\n");
                assert(blanks.take(j + 1).drop_last() =~= blanks.take(j as int));
                j = j + 1;
            }
            assert(blanks.take(nb as int) =~= blanks);
            out.append("    </tr>\n");
        },
        None => {},
    }
    let ghost mname = match iname { Some(x) => Some(x@), None => None };
    assert(out@ =~= p1 + html_name_row(mname, bv.len()));
    proof {
        reveal_strlit("  </thead>\n  <tbody>\n");
    }
    out.append("  </thead>\n  <tbody>\n");
    let ghost p3 = out@;
    let nr = idx2.len();
    let ghost rows = Seq::new(iv2.len(), |r: int| html_row(iv2, bv2, r));
    let mut r: usize = 0;
    while r < nr
        invariant
            nr == idx2.len(),
            iv2 == texts(idx2@),
            nb == body2.len(),
            bv2.len() == nb,
            forall|q: int| 0 <= q < nb ==> #[trigger] texts(body2@[q]@) == bv2[q],
            forall|q: int| 0 <= q < nb ==> (#[trigger] body2@[q]).len() == nr,
            rows == Seq::new(iv2.len(), |r: int| html_row(iv2, bv2, r)),
            r <= nr,
            out@ == p3 + concat_all(rows.take(r as int)),
        decreases nr - r,
    {
        let ghost before = out@;
        proof {
            reveal_strlit("    <tr>\n");
        }
        out.append("    <tr>\n");
        push_th(&mut out, idx2[r].as_str());
        let ghost p4 = out@;
        let ghost cells = Seq::new(bv2.len(), |q: int| td(bv2[q][r as int]));
        let mut q: usize = 0;
        while q < nb
            invariant
                nb == body2.len(),
                bv2.len() == nb,
                r < nr,
                forall|q: int| 0 <= q < nb ==> #[trigger] texts(body2@[q]@) == bv2[q],
                forall|q: int| 0 <= q < nb ==> (#[trigger] body2@[q]).len() == nr,
                cells == Seq::new(bv2.len(), |q: int| td(bv2[q][r as int])),
                q <= nb,
                out@ == p4 + concat_all(cells.take(q as int)),
            decreases nb - q,
        {
            push_td(&mut out, body2[q][r].as_str());
            assert(texts(body2@[q as int]@)[r as int] == body2@[q as int]@[r as int]@);
            assert(cells.take(q + 1).drop_last() =~= cells.take(q as int));
            q = q + 1;
        }
        assert(cells.take(nb as int) =~= cells);
        proof {
            reveal_strlit("    </tr>\n");
        }
        out.append("    </tr>\n");
        assert(iv2[r as int] == idx2@[r as int]@);
        assert(out@ =~= before + rows[r as int]);
        assert(rows.take(r + 1).drop_last() =~= rows.take(r as int));
        r = r + 1;
    }
    assert(rows.take(nr as int) =~= rows);
    proof {
        reveal_strlit("  </tbody>\n</table>\n");
    }
    out.append("  </tbody>\n</table>\n");
    let ghost p5 = out@;
    if truncated {
        proof {
            reveal_strlit("<p>");
            reveal_strlit(" rows × ");
            reveal_strlit(" columns</p>\n");
        }
        out.append("<p>");
        out.append(u64_text(n as u64).as_str());
        out.append(" rows × ");
        out.append(u64_text(names.len() as u64).as_str());
        out.append(" columns</p>\n");
    }
    proof {
        reveal_strlit("</div>");
    }
    out.append("</div>");
    out
}

} // verus!
