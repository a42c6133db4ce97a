//! pandas-style text layout of tables of already formatted cells, and the
//! small parsers that feed it.

use vstd::prelude::*;
use vstd::string::*;

use crate::frame::texts;
use crate::text::{
    char_count, ljust, push_spaces, repeat_char, rjust, spec_ljust, spec_rjust, nat_digits,
    u64_text,
};

verus! {

/// The largest character count of the strings.
pub open spec fn max_chars(v: Seq<Seq<char>>) -> nat
    decreases v.len(),
{
    if v.len() == 0 {
        0
    } else {
        let m = max_chars(v.drop_last());
        if v.last().len() > m { v.last().len() } else { m }
    }
}

/// The lines joined by `sep`.
pub open spec fn seq_join(lines: Seq<Seq<char>>, sep: Seq<char>) -> Seq<char>
    decreases lines.len(),
{
    if lines.len() == 0 {
        seq![]
    } else if lines.len() == 1 {
        lines[0]
    } else {
        seq_join(lines.drop_last(), sep) + sep + lines.last()
    }
}

/// The largest character count of a list of strings.
pub fn max_width(v: &Vec<String>) -> (r: usize)
    ensures
        r == max_chars(texts(v@)),
{
    let mut m: usize = 0;
    let mut i: usize = 0;
    while i < v.len()
        invariant
            i <= v.len(),
            m == max_chars(texts(v@).take(i as int)),
        decreases v.len() - i,
    {
        assert(texts(v@).take(i + 1).drop_last() =~= texts(v@).take(i as int));
        let c = char_count(v[i].as_str());
        if c > m {
            m = c;
        }
        i = i + 1;
    }
    assert(texts(v@).take(v.len() as int) =~= texts(v@));
    m
}

/// Appends `"\n"` then `line` unless `out` is the first line.
fn push_line(out: &mut String, first: bool, line: &str)
    ensures
        final(out)@ == if first { old(out)@ + line@ } else { old(out)@ + seq!['\n'] + line@ },
{
    if !first {
        proof { reveal_strlit("\n"); }
        out.append("\n");
    }
    out.append(line);
}

/// Join lines with newlines.
pub fn join_lines(lines: &Vec<String>) -> (r: String)
    ensures
        r@ == seq_join(texts(lines@), seq!['\n']),
{
    let mut out = String::new();
    let mut i: usize = 0;
    while i < lines.len()
        invariant
            i <= lines.len(),
            out@ == seq_join(texts(lines@).take(i as int), seq!['\n']),
        decreases lines.len() - i,
    {
        assert(texts(lines@).take(i + 1).drop_last() =~= texts(lines@).take(i as int));
        push_line(&mut out, i == 0, lines[i].as_str());
        proof {
            if i == 0 {
                assert(texts(lines@).take(0) =~= Seq::<Seq<char>>::empty());
            }
        }
        i = i + 1;
    }
    assert(texts(lines@).take(lines.len() as int) =~= texts(lines@));
    out
}

/// The displayed row positions and whether truncation occurred: when
/// truncated, the first `k` followed by the last `k` positions.
pub open spec fn spec_displayed_rows(n: nat, truncate: Option<usize>) -> Seq<usize> {
    match truncate {
        Some(k) => Seq::new(k as nat, |i: int| i as usize) + Seq::new(k as nat, |i: int| (n - k + i) as usize),
        None => Seq::new(n, |i: int| i as usize),
    }
}

/// The displayed row positions and whether truncation occurred. When
/// truncated, the result is the first `k` followed by the last `k` positions.
pub fn displayed_rows(n: usize, truncate: Option<usize>) -> (r: (Vec<usize>, bool))
    requires
        truncate matches Some(k) ==> 1 <= k && 2 * k < n,
    ensures
        r.0@ == spec_displayed_rows(n as nat, truncate),
        r.1 == truncate is Some,
{
    match truncate {
        Some(k) => {
            let mut rows: Vec<usize> = Vec::new();
            let mut i: usize = 0;
            while i < k
                invariant
                    i <= k,
                    rows@ =~= Seq::new(i as nat, |q: int| q as usize),
                decreases k - i,
            {
                rows.push(i);
                i = i + 1;
            }
            let mut i: usize = n - k;
            while i < n
                invariant
                    n - k <= i <= n,
                    rows@ =~= Seq::new(k as nat, |q: int| q as usize) + Seq::new((i - (n - k)) as nat, |q: int| (n - k + q) as usize),
                decreases n - i,
            {
                rows.push(i);
                i = i + 1;
            }
            (rows, true)
        },
        None => {
            let mut rows: Vec<usize> = Vec::new();
            let mut i: usize = 0;
            while i < n
                invariant
                    i <= n,
                    rows@ =~= Seq::new(i as nat, |q: int| q as usize),
                decreases n - i,
            {
                rows.push(i);
                i = i + 1;
            }
            (rows, false)
        },
    }
}

/// The vertical body shared by `Series` and `Row`: each row is
/// `<label>   <value>`, labels left-justified, values right-justified.
pub open spec fn spec_vertical_body(labels: Seq<Seq<char>>, values: Seq<Seq<char>>) -> Seq<char> {
    let lw = max_chars(labels) as int;
    let vw = max_chars(values) as int;
    let n = if labels.len() < values.len() { labels.len() } else { values.len() };
    seq_join(
        Seq::new(n, |i: int| spec_ljust(labels[i], lw) + seq![' ', ' ', ' '] + spec_rjust(values[i], vw)),
        seq!['\n'],
    )
}

/// Assemble the vertical body shared by `Series` and `Row`: each row is
/// `<label>   <value>` with the labels left-justified and the values
/// right-justified.
pub fn vertical_body(labels: &Vec<String>, values: &Vec<String>) -> (r: String)
    ensures
        r@ == spec_vertical_body(texts(labels@), texts(values@)),
{
    let lw = max_width(labels);
    let vw = max_width(values);
    let n = if labels.len() < values.len() { labels.len() } else { values.len() };
    let ghost want = Seq::new(n as nat, |i: int| spec_ljust(texts(labels@)[i], lw as int) + seq![' ', ' ', ' '] + spec_rjust(texts(values@)[i], vw as int));
    let mut lines: Vec<String> = Vec::new();
    let mut i: usize = 0;
    while i < n
        invariant
            n <= labels.len(),
            n <= values.len(),
            i <= n,
            want == Seq::new(n as nat, |i: int| spec_ljust(texts(labels@)[i], lw as int) + seq![' ', ' ', ' '] + spec_rjust(texts(values@)[i], vw as int)),
            texts(lines@) =~= want.take(i as int),
        decreases n - i,
    {
        let mut line = ljust(labels[i].as_str(), lw);
        proof { reveal_strlit("   "); }
        line.append("   ");
        let v = rjust(values[i].as_str(), vw);
        line.append(v.as_str());
        assert(texts(labels@)[i as int] == labels@[i as int]@);
        assert(texts(values@)[i as int] == values@[i as int]@);
        assert("   "@ =~= seq![' ', ' ', ' ']);
        assert(line@ =~= want[i as int]);
        let ghost before = lines@;
        lines.push(line);
        assert(texts(lines@) =~= texts(before).push(want[i as int]));
        i = i + 1;
    }
    assert(want.take(n as int) =~= want);
    join_lines(&lines)
}

/// What `str::parse::<usize>` gives: an optional `+` followed by one or more
/// ASCII digits, whose value fits in `usize`.
pub open spec fn spec_parse_usize(s: Seq<char>) -> Option<usize> {
    let d = if s.len() > 0 && s[0] == '+' { s.drop_first() } else { s };
    let v = crate::reader::digits_value(d);
    if d.len() > 0 && (forall|i: int| 0 <= i < d.len() ==> crate::reader::is_digit(#[trigger] d[i])) && v
        <= usize::MAX {
        Some(v as usize)
    } else {
        None
    }
}

/// `str::parse::<usize>`, as an `Option`.
#[verifier::external_body]
fn parse_usize(s: &str) -> (r: Option<usize>)
    ensures
        r == spec_parse_usize(s@),
{
    s.parse::<usize>().ok()
}

/// A printf-style float format `%[.prec](f|e|g)` read as `(precision, kind)`.
pub open spec fn spec_parse_float_format(s: Seq<char>) -> Option<(Option<usize>, char)> {
    if s.len() == 0 || s[0] != '%' {
        None
    } else {
        let body = s.drop_first();
        if body.len() == 0 {
            None
        } else {
            let kind = body.last();
            if !(kind == 'f' || kind == 'e' || kind == 'g') {
                None
            } else if body[0] == '.' {
                match spec_parse_usize(body.subrange(1, body.len() - 1)) {
                    Some(p) => Some((Some(p), kind)),
                    None => None,
                }
            } else if body.len() == 1 {
                Some((None, kind))
            } else {
                None
            }
        }
    }
}

/// Parse a printf-style float format `%[.prec](f|e|g)` (the common pandas
/// `float_format` forms) into `(precision, kind)`; `None` if unrecognized.
pub fn parse_float_format(fmt: &str) -> (r: Option<(Option<usize>, char)>)
    ensures
        r == spec_parse_float_format(fmt@),
{
    let n = fmt.unicode_len();
    if n == 0 || fmt.get_char(0) != '%' {
        return None;
    }
    if n == 1 {
        return None;
    }
    let kind = fmt.get_char(n - 1);
    if !(kind == 'f' || kind == 'e' || kind == 'g') {
        return None;
    }
    let ghost body = fmt@.drop_first();
    assert(body.last() == kind);
    if fmt.get_char(1) == '.' {
        assert(body[0] == '.');
        if n < 3 {
            assert(body.len() == 1);
            assert(false);
            return None;
        }
        let digits = fmt.substring_char(2, n - 1);
        assert(digits@ =~= body.subrange(1, body.len() - 1));
        match parse_usize(digits) {
            Some(p) => Some((Some(p), kind)),
            None => None,
        }
    } else if n == 2 {
        Some((None, kind))
    } else {
        None
    }
}

/// Resolve an optional `float_format` argument: absent stays absent; a form
/// [`parse_float_format`] does not recognise is a `Value` error.
pub fn parse_ff(float_format: Option<&str>) -> (r: Result<Option<(Option<usize>, char)>, crate::error::VolasError>)
    ensures
        match float_format {
            None => r == Ok::<Option<(Option<usize>, char)>, crate::error::VolasError>(None),
            Some(f) => match r {
                Ok(Some(p)) => spec_parse_float_format(f@) == Some(p),
                Ok(None) => false,
                Err(e) => spec_parse_float_format(f@) is None && e is Value,
            },
        },
{
    match float_format {
        Some(f) => match parse_float_format(f) {
            Some(p) => Ok(Some(p)),
            None => {
                let mut m = "unsupported float_format \"".to_owned();
                m.append(f);
                m.append("\"");
                Err(crate::error::VolasError::Value(m))
            },
        },
        None => Ok(None),
    }
}

/// When to print the `[N rows x M columns]` dimensions footer.
#[derive(Clone, Copy, Debug, PartialEq, Eq, Structural)]
pub enum Dimensions {
    /// Never.
    Never,
    /// Always.
    Always,
    /// Only when the table is truncated.
    OnTruncate,
}

/// Layout options of the text table.
#[derive(Clone, Copy, Debug)]
pub struct TableOpts {
    /// Whether to print the column-name header row.
    pub header: bool,
    /// Whether to print the index column.
    pub index: bool,
    /// When to print the dimensions footer.
    pub dimensions: Dimensions,
}

/// The space before data column `j` (none before the first when the index
/// is hidden).
pub open spec fn col_sep(index: bool, j: int) -> Seq<char> {
    if index || j > 0 { seq![' '] } else { seq![] }
}

/// Cells right-justified to their column widths, each after its separator.
pub open spec fn data_part(cells: Seq<Seq<char>>, widths: Seq<int>, index: bool) -> Seq<char>
    decreases cells.len(),
{
    if cells.len() == 0 {
        seq![]
    } else {
        let j = cells.len() - 1;
        data_part(cells.drop_last(), widths, index) + col_sep(index, j) + spec_rjust(cells[j], widths[j])
    }
}

/// The index-name row's data part: a blank of each column's width.
pub open spec fn blank_part(widths: Seq<int>) -> Seq<char>
    decreases widths.len(),
{
    if widths.len() == 0 {
        seq![]
    } else {
        blank_part(widths.drop_last()) + seq![' '] + repeat_char(' ', widths.last() as nat)
    }
}

/// `cells` with the ellipsis marker inserted at position `k` when truncated.
pub open spec fn with_ellipsis(cells: Seq<Seq<char>>, truncated: bool, k: int, wide: bool) -> Seq<Seq<char>> {
    if truncated {
        cells.insert(k, if wide { "..."@ } else { ".."@ })
    } else {
        cells
    }
}

/// The text table: an optional header row (and index-name row), then one row
/// per displayed row with the ellipsis row in the middle when truncated, and
/// the dimensions footer when asked for.
pub open spec fn spec_render_table(
    idx: Seq<Seq<char>>,
    iname: Seq<char>,
    headers: Seq<Seq<char>>,
    bodies: Seq<Seq<Seq<char>>>,
    truncated: bool,
    n: nat,
    width: nat,
    opts: TableOpts,
) -> Seq<char> {
    let k = idx.len() / 2;
    let vws = Seq::new(bodies.len(), |j: int| max_chars(bodies[j]) as int);
    let idx2 = with_ellipsis(idx, truncated, k as int, max_chars(idx) > 3);
    let bodies2 = Seq::new(bodies.len(), |j: int| with_ellipsis(bodies[j], truncated, k as int, vws[j] > 3));
    let widths = Seq::new(bodies.len(), |j: int| if opts.header && headers[j].len() > vws[j] { headers[j].len() as int } else { vws[j] });
    let idx_w = if iname.len() > max_chars(idx2) { iname.len() as int } else { max_chars(idx2) as int };
    let head = if opts.header {
        let h = (if opts.index { repeat_char(' ', idx_w as nat) } else { seq![] }) + data_part(headers, widths, opts.index);
        if opts.index && iname.len() > 0 {
            seq![h, spec_ljust(iname, idx_w) + blank_part(widths)]
        } else {
            seq![h]
        }
    } else {
        seq![]
    };
    let rows = Seq::new(
        idx2.len(),
        |r: int|
            (if opts.index { spec_ljust(idx2[r], idx_w) } else { seq![] }) + data_part(
                Seq::new(bodies.len(), |j: int| bodies2[j][r]),
                widths,
                opts.index,
            ),
    );
    let body = seq_join(head + rows, seq!['\n']);
    let footer = match opts.dimensions {
        Dimensions::Always => true,
        Dimensions::OnTruncate => truncated,
        Dimensions::Never => false,
    };
    if footer {
        body + "\n\n["@ + nat_digits(n) + " rows x "@ + nat_digits(width) + " columns]"@
    } else {
        body
    }
}


pub open spec fn width_views(w: Seq<usize>) -> Seq<int> {
    w.map_values(|x: usize| x as int)
}

pub open spec fn body_views(b: Seq<Vec<String>>) -> Seq<Seq<Seq<char>>> {
    b.map_values(|c: Vec<String>| texts(c@))
}

/// Appends each cell right-justified to its width, after its separator.
fn append_data(line: &mut String, cells: &Vec<String>, widths: &Vec<usize>, index: bool)
    requires
        cells.len() <= widths.len(),
    ensures
        final(line)@ == old(line)@ + data_part(texts(cells@), width_views(widths@), index),
{
    let mut j: usize = 0;
    while j < cells.len()
        invariant
            cells.len() <= widths.len(),
            j <= cells.len(),
            line@ == old(line)@ + data_part(texts(cells@).take(j as int), width_views(widths@), index),
        decreases cells.len() - j,
    {
        let ghost before = line@;
        if index || j > 0 {
            proof { reveal_strlit(" "); }
            line.append(" ");
        }
        let cell = rjust(cells[j].as_str(), widths[j]);
        line.append(cell.as_str());
        proof {
            let t = texts(cells@).take(j + 1);
            assert(t.drop_last() =~= texts(cells@).take(j as int));
            assert(t[j as int] == cells@[j as int]@);
            assert(line@ =~= old(line)@ + data_part(t, width_views(widths@), index));
        }
        j = j + 1;
    }
    assert(texts(cells@).take(cells.len() as int) =~= texts(cells@));
}

/// Appends a blank of each width, each after a space.
fn append_blanks(line: &mut String, widths: &Vec<usize>)
    ensures
        final(line)@ == old(line)@ + blank_part(width_views(widths@)),
{
    let mut j: usize = 0;
    while j < widths.len()
        invariant
            j <= widths.len(),
            line@ == old(line)@ + blank_part(width_views(widths@).take(j as int)),
        decreases widths.len() - j,
    {
        proof { reveal_strlit(" "); }
        line.append(" ");
        push_spaces(line, widths[j]);
        proof {
            let t = width_views(widths@).take(j + 1);
            assert(t.drop_last() =~= width_views(widths@).take(j as int));
        }
        j = j + 1;
    }
    assert(width_views(widths@).take(widths.len() as int) =~= width_views(widths@));
}

fn ellipsis(wide: bool) -> (r: String)
    ensures
        r@ == if wide { "..."@ } else { ".."@ },
{
    if wide { "...".to_owned() } else { "..".to_owned() }
}

/// Render already formatted cells as a pandas-style aligned text table: a
/// left-justified index column, right-justified data columns joined by a
/// single space, an optional header (and index-name) row, the ellipsis row of
/// a truncated table, and the `[N rows x M columns]` footer.
pub fn render_table(
    idx: Vec<String>,
    iname: &str,
    headers: &Vec<String>,
    bodies: &Vec<Vec<String>>,
    truncated: bool,
    n: usize,
    width: usize,
    opts: TableOpts,
) -> (r: String)
    requires
        headers.len() == bodies.len(),
        forall|j: int| 0 <= j < bodies.len() ==> (#[trigger] bodies@[j]).len() == idx.len(),
        idx.len() < usize::MAX,
    ensures
        r@ == spec_render_table(texts(idx@), iname@, texts(headers@), body_views(bodies@), truncated, n as nat, width as nat, opts),
{
    let ghost iv = texts(idx@);
    let ghost bv = body_views(bodies@);
    let nb = bodies.len();
    let k = idx.len() / 2;
    // Per-column value widths, measured before the ellipsis row.
    let mut vws: Vec<usize> = Vec::new();
    let mut j: usize = 0;
    while j < nb
        invariant
            nb == bodies.len(),
            bv == body_views(bodies@),
            j <= nb,
            vws.len() == j,
            forall|q: int| 0 <= q < j ==> #[trigger] vws@[q] == max_chars(bv[q]),
        decreases nb - j,
    {
        assert(bv[j as int] == texts(bodies@[j as int]@));
        vws.push(max_width(&bodies[j]));
        j = j + 1;
    }
    let iw = max_width(&idx);
    let mut idx2 = idx;
    if truncated {
        idx2.insert(k, ellipsis(iw > 3));
        assert(texts(idx2@) =~= iv.insert(k as int, if iw > 3 { "..."@ } else { ".."@ }));
    }
    let ghost iv2 = texts(idx2@);
    assert(iv2 == with_ellipsis(iv, truncated, k as int, max_chars(iv) > 3));
    let mut bodies2: Vec<Vec<String>> = Vec::new();
    let mut j: usize = 0;
    while j < nb
        invariant
            nb == bodies.len(),
            bv == body_views(bodies@),
            iv == texts(idx@),
            k == idx.len() / 2,
            forall|q: int| 0 <= q < bodies.len() ==> (#[trigger] bodies@[q]).len() == idx.len(),
            vws.len() == nb,
            forall|q: int| 0 <= q < nb ==> #[trigger] vws@[q] == max_chars(bv[q]),
            j <= nb,
            bodies2.len() == j,
            forall|q: int| 0 <= q < j ==> texts((#[trigger] bodies2@[q])@) == with_ellipsis(bv[q], truncated, k as int, vws@[q] > 3),
        decreases nb - j,
    {
        assert(bv[j as int] == texts(bodies@[j as int]@));
        let mut b = crate::frame::clone_texts(&bodies[j]);
        if truncated {
            b.insert(k, ellipsis(vws[j] > 3));
            assert(texts(b@) =~= bv[j as int].insert(k as int, if vws[j as int] > 3 { "..."@ } else { ".."@ }));
        }
        bodies2.push(b);
        j = j + 1;
    }
    let ghost widths_spec = Seq::new(nb as nat, |q: int| if opts.header && texts(headers@)[q].len() > vws@[q] { texts(headers@)[q].len() as int } else { vws@[q] as int });
    let mut widths: Vec<usize> = Vec::new();
    let mut j: usize = 0;
    while j < nb
        invariant
            nb == bodies.len(),
            headers.len() == nb,
            vws.len() == nb,
            j <= nb,
            widths.len() == j,
            widths_spec == Seq::new(nb as nat, |q: int| if opts.header && texts(headers@)[q].len() > vws@[q] { texts(headers@)[q].len() as int } else { vws@[q] as int }),
            forall|q: int| 0 <= q < j ==> (#[trigger] widths@[q]) as int == widths_spec[q],
        decreases nb - j,
    {
        let hw = char_count(headers[j].as_str());
        assert(texts(headers@)[j as int] == headers@[j as int]@);
        let w = if opts.header && hw > vws[j] { hw } else { vws[j] };
        widths.push(w);
        j = j + 1;
    }
    assert(width_views(widths@) =~= widths_spec);
    let iw2 = max_width(&idx2);
    let nw = char_count(iname);
    let idx_w = if nw > iw2 { nw } else { iw2 };
    let mut lines: Vec<String> = Vec::new();
    let ghost head: Seq<Seq<char>>;
    if opts.header {
        let mut h = String::new();
        if opts.index {
            push_spaces(&mut h, idx_w);
        }
        append_data(&mut h, headers, &widths, opts.index);
        lines.push(h);
        if opts.index && nw > 0 {
            let mut h2 = ljust(iname, idx_w);
            append_blanks(&mut h2, &widths);
            lines.push(h2);
        }
    }
    proof {
        head = texts(lines@);
    }
    let nr = idx2.len();
    let mut r: usize = 0;
    while r < nr
        invariant
            nr == idx2.len(),
            r <= nr,
            nb == bodies2.len(),
            widths.len() == nb,
            forall|q: int| 0 <= q < nb ==> (#[trigger] bodies2@[q]).len() == nr,
            texts(lines@) =~= head + Seq::new(r as nat, |rr: int|
                (if opts.index { spec_ljust(texts(idx2@)[rr], idx_w as int) } else { seq![] }) + data_part(
                    Seq::new(nb as nat, |q: int| texts(bodies2@[q]@)[rr]),
                    width_views(widths@),
                    opts.index,
                )),
        decreases nr - r,
    {
        let mut line = if opts.index { ljust(idx2[r].as_str(), idx_w) } else { String::new() };
        let mut cells: Vec<String> = Vec::new();
        let mut j: usize = 0;
        while j < nb
            invariant
                nb == bodies2.len(),
                r < nr,
                forall|q: int| 0 <= q < nb ==> (#[trigger] bodies2@[q]).len() == nr,
                j <= nb,
                texts(cells@) =~= Seq::new(j as nat, |q: int| texts(bodies2@[q]@)[r as int]),
            decreases nb - j,
        {
            let ghost before = cells@;
            cells.push(bodies2[j][r].clone());
            assert(texts(bodies2@[j as int]@)[r as int] == bodies2@[j as int]@[r as int]@);
            assert(texts(cells@) =~= texts(before).push(texts(bodies2@[j as int]@)[r as int]));
            j = j + 1;
        }
        append_data(&mut line, &cells, &widths, opts.index);
        let ghost before = texts(lines@);
        lines.push(line);
        assert(texts(lines@) =~= before.push(texts(lines@).last()));
        r = r + 1;
    }
    proof {
        let vws_spec = Seq::new(bv.len(), |q: int| max_chars(bv[q]) as int);
        let bodies2_spec = Seq::new(bv.len(), |q: int| with_ellipsis(bv[q], truncated, k as int, vws_spec[q] > 3));
        assert forall|q: int| 0 <= q < nb implies #[trigger] bodies2_spec[q] == texts(bodies2@[q]@) by {}
        let wspec = Seq::new(bv.len(), |q: int| if opts.header && texts(headers@)[q].len() > vws_spec[q] { texts(headers@)[q].len() as int } else { vws_spec[q] });
        assert(wspec =~= width_views(widths@));
        let rows_spec = Seq::new(
            iv2.len(),
            |rr: int|
                (if opts.index { spec_ljust(iv2[rr], idx_w as int) } else { seq![] }) + data_part(
                    Seq::new(bv.len(), |q: int| bodies2_spec[q][rr]),
                    wspec,
                    opts.index,
                ),
        );
        let mine = Seq::new(nr as nat, |rr: int|
                (if opts.index { spec_ljust(texts(idx2@)[rr], idx_w as int) } else { seq![] }) + data_part(
                    Seq::new(nb as nat, |q: int| texts(bodies2@[q]@)[rr]),
                    width_views(widths@),
                    opts.index,
                ));
        assert forall|rr: int| 0 <= rr < iv2.len() implies #[trigger] rows_spec[rr] == mine[rr] by {
            assert(Seq::new(bv.len(), |q: int| bodies2_spec[q][rr]) =~= Seq::new(nb as nat, |q: int| texts(bodies2@[q]@)[rr]));
        }
        assert(rows_spec =~= mine);
        assert(texts(lines@) =~= head + rows_spec);
        let spec_head = if opts.header {
            let h = (if opts.index { repeat_char(' ', idx_w as nat) } else { seq![] }) + data_part(texts(headers@), wspec, opts.index);
            if opts.index && iname@.len() > 0 {
                seq![h, spec_ljust(iname@, idx_w as int) + blank_part(wspec)]
            } else {
                seq![h]
            }
        } else {
            seq![]
        };
        assert(head =~= spec_head);
        assert(idx_w as int == (if iname@.len() > max_chars(iv2) { iname@.len() as int } else { max_chars(iv2) as int }));
    }
    let mut out = join_lines(&lines);
    let footer = match opts.dimensions {
        Dimensions::Always => true,
        Dimensions::OnTruncate => truncated,
        Dimensions::Never => false,
    };
    if footer {
        out.append("\n\n[");
        out.append(u64_text(n as u64).as_str());
        out.append(" rows x ");
        out.append(u64_text(width as u64).as_str());
        out.append(" columns]");
    }
    out
}


/// The items joined by `", "`.
pub fn join_comma(items: &Vec<String>) -> (r: String)
    ensures
        r@ == seq_join(texts(items@), seq![',', ' ']),
{
    let mut out = String::new();
    let mut i: usize = 0;
    while i < items.len()
        invariant
            i <= items.len(),
            out@ == seq_join(texts(items@).take(i as int), seq![',', ' ']),
        decreases items.len() - i,
    {
        assert(texts(items@).take(i + 1).drop_last() =~= texts(items@).take(i as int));
        if i > 0 {
            proof { reveal_strlit(", "); }
            out.append(", ");
        }
        out.append(items[i].as_str());
        proof {
            if i == 0 {
                assert(texts(items@).take(0) =~= Seq::<Seq<char>>::empty());
            }
        }
        i = i + 1;
    }
    assert(texts(items@).take(items.len() as int) =~= texts(items@));
    out
}

/// The empty-frame placeholder pandas prints for a frame without rows or
/// without displayed columns.
pub open spec fn spec_empty_frame(names: Seq<Seq<char>>, labels: Seq<Seq<char>>) -> Seq<char> {
    "Empty DataFrame\nColumns: ["@ + seq_join(names, seq![',', ' ']) + "]\nIndex: ["@ + seq_join(labels, seq![',', ' ']) + "]"@
}

/// The empty-frame placeholder (`Empty DataFrame\nColumns: [...]\nIndex:
/// [...]`), given the displayed column names and the index labels.
pub fn empty_frame(names: &Vec<String>, labels: &Vec<String>) -> (r: String)
    ensures
        r@ == spec_empty_frame(texts(names@), texts(labels@)),
{
    let mut out = "Empty DataFrame\nColumns: [".to_owned();
    out.append(join_comma(names).as_str());
    out.append("]\nIndex: [");
    out.append(join_comma(labels).as_str());
    out.append("]");
    out
}

/// A column header: bare for a datetime column (whose cells have no sign
/// slot), else with a leading space like the cells.
pub open spec fn spec_header(name: Seq<char>, is_datetime: bool) -> Seq<char> {
    if is_datetime { name } else { seq![' '] + name }
}

/// The header texts of the displayed columns.
pub fn frame_headers(names: &Vec<String>, is_datetime: &Vec<bool>) -> (r: Vec<String>)
    requires
        names.len() == is_datetime.len(),
    ensures
        r.len() == names.len(),
        forall|j: int| 0 <= j < names.len() ==> (#[trigger] r@[j])@ == spec_header(names@[j]@, is_datetime@[j]),
{
    let mut r: Vec<String> = Vec::new();
    let mut j: usize = 0;
    while j < names.len()
        invariant
            names.len() == is_datetime.len(),
            j <= names.len(),
            r.len() == j,
            forall|q: int| 0 <= q < j ==> (#[trigger] r@[q])@ == spec_header(names@[q]@, is_datetime@[q]),
        decreases names.len() - j,
    {
        if is_datetime[j] {
            r.push(names[j].clone());
        } else {
            let mut h = " ".to_owned();
            proof { reveal_strlit(" "); }
            h.append(names[j].as_str());
            r.push(h);
        }
        j = j + 1;
    }
    r
}

/// The text of an integer cell: a leading sign-space when non-negative.
pub open spec fn int_cell(v: i64) -> Seq<char> {
    crate::text::spec_lead_num(v < 0, crate::text::int_text(v as int))
}

/// The text of a bool cell.
pub open spec fn bool_cell(b: bool) -> Seq<char> {
    if b { " True"@ } else { " False"@ }
}

/// The cell texts of an integer, bool or text column at `rows`, pandas-style
/// (a leading sign-space on every cell); `None` for a datetime column.
pub open spec fn spec_plain_cells(col: crate::frame::ColumnView, rows: Seq<usize>) -> Option<Seq<Seq<char>>> {
    match col {
        crate::frame::ColumnView::I64(v) => Some(rows.map_values(|i: usize| int_cell(v[i as int]))),
        crate::frame::ColumnView::Bool(v) => Some(rows.map_values(|i: usize| bool_cell(v[i as int]))),
        crate::frame::ColumnView::Str(v) => Some(rows.map_values(|i: usize| seq![' '] + v[i as int])),
        crate::frame::ColumnView::Datetime(_) => None,
    }
}

/// Format an integer, bool or text column's cells at `rows` pandas-style;
/// `None` for a datetime column.
pub fn plain_cells(col: &crate::frame::Column, rows: &Vec<usize>) -> (r: Option<Vec<String>>)
    requires
        forall|k: int| 0 <= k < rows.len() ==> rows@[k] < col@.len(),
    ensures
        match r {
            Some(v) => spec_plain_cells(col@, rows@) == Some(texts(v@)),
            None => spec_plain_cells(col@, rows@) is None,
        },
{
    let mut out: Vec<String> = Vec::new();
    let mut k: usize = 0;
    match col {
        crate::frame::Column::Datetime(_) => {
            return None;
        },
        _ => {},
    }
    while k < rows.len()
        invariant
            forall|q: int| 0 <= q < rows.len() ==> rows@[q] < col@.len(),
            !(col@ is Datetime),
            k <= rows.len(),
            Some(texts(out@)) == spec_plain_cells(col@, rows@.take(k as int)),
        decreases rows.len() - k,
    {
        let i = rows[k];
        let cell = match col {
            crate::frame::Column::I64(v) => crate::text::lead_num(v[i] < 0, crate::text::i64_text(v[i])),
            crate::frame::Column::Bool(v) => if v[i] { " True".to_owned() } else { " False".to_owned() },
            crate::frame::Column::Str(v) => {
                let mut c = " ".to_owned();
                proof { reveal_strlit(" "); }
                c.append(v[i].as_str());
                c
            },
            crate::frame::Column::Datetime(_) => String::new(),
        };
        let ghost before = out@;
        out.push(cell);
        proof {
            let cv = col@;
            match cv {
                crate::frame::ColumnView::I64(v) => {
                    assert(rows@.take(k + 1).map_values(|i: usize| int_cell(v[i as int])) =~= rows@.take(k as int).map_values(|i: usize| int_cell(v[i as int])).push(cell@));
                },
                crate::frame::ColumnView::Bool(v) => {
                    assert(rows@.take(k + 1).map_values(|i: usize| bool_cell(v[i as int])) =~= rows@.take(k as int).map_values(|i: usize| bool_cell(v[i as int])).push(cell@));
                },
                crate::frame::ColumnView::Str(v) => {
                    reveal_strlit(" ");
                    match col {
                        crate::frame::Column::Str(w) => {
                            assert(v[i as int] == w@[i as int]@);
                        },
                        _ => {},
                    }
                    assert(cell@ =~= seq![' '] + v[i as int]);
                    assert(rows@.take(k + 1).map_values(|i: usize| seq![' '] + v[i as int]) =~= rows@.take(k as int).map_values(|i: usize| seq![' '] + v[i as int]).push(cell@));
                },
                _ => {},
            }
            assert(texts(out@) =~= texts(before).push(cell@));
        }
        k = k + 1;
    }
    assert(rows@.take(rows.len() as int) =~= rows@);
    Some(out)
}

/// The ellipsis row of a truncated `Series`: centred within the value width.
pub open spec fn series_ellipsis(vw: nat) -> Seq<char> {
    crate::text::spec_center(if vw > 3 { "..."@ } else { ".."@ }, vw as int)
}

/// The footer parts of a `Series`: its name, its length when truncated, and
/// its dtype.
pub open spec fn series_footer(name: Option<Seq<char>>, truncated: bool, n: nat, dtype: Seq<char>) -> Seq<Seq<char>> {
    (match name {
        Some(nm) => seq!["Name: "@ + nm],
        None => seq![],
    }) + (if truncated { seq!["Length: "@ + nat_digits(n)] } else { seq![] }) + seq!["dtype: "@ + dtype]
}

/// A `Series` as pandas prints it, from its already formatted index labels
/// and values at the displayed rows: the index name on a line of its own,
/// the vertical `label   value` body with a centred ellipsis row when
/// truncated, and the `Name: .., Length: .., dtype: ..` footer when asked for.
/// An empty `Series` prints as `Series([], Name: .., dtype: ..)`.
pub open spec fn spec_render_series(
    labels: Seq<Seq<char>>,
    values: Seq<Seq<char>>,
    truncated: bool,
    n: nat,
    iname: Option<Seq<char>>,
    name: Option<Seq<char>>,
    dtype: Seq<char>,
    footer: bool,
) -> Seq<char> {
    if n == 0 {
        match name {
            Some(nm) => "Series([], Name: "@ + nm + ", dtype: "@ + dtype + ")"@,
            None => "Series([], dtype: "@ + dtype + ")"@,
        }
    } else {
        let k = labels.len() / 2;
        let labels2 = if truncated { labels.insert(k as int, seq![]) } else { labels };
        let values2 = if truncated { values.insert(k as int, series_ellipsis(max_chars(values))) } else { values };
        let head = match iname {
            Some(x) => x + seq!['\n'],
            None => seq![],
        };
        let foot = if footer { seq!['\n'] + seq_join(series_footer(name, truncated, n, dtype), seq![',', ' ']) } else { seq![] };
        head + spec_vertical_body(labels2, values2) + foot
    }
}

/// Render a `Series` from its formatted index labels and values at the
/// displayed rows (see [`spec_render_series`]).
pub fn render_series(
    labels: Vec<String>,
    values: Vec<String>,
    truncated: bool,
    n: usize,
    iname: Option<&str>,
    name: Option<&str>,
    dtype: &str,
    footer: bool,
) -> (r: String)
    requires
        labels.len() == values.len(),
    ensures
        r@ == spec_render_series(
            texts(labels@),
            texts(values@),
            truncated,
            n as nat,
            match iname { Some(x) => Some(x@), None => None },
            match name { Some(x) => Some(x@), None => None },
            dtype@,
            footer,
        ),
{
    if n == 0 {
        let mut out = "Series([], ".to_owned();
        match name {
            Some(nm) => {
                out.append("Name: ");
                out.append(nm);
                out.append(", ");
            },
            None => {},
        }
        out.append("dtype: ");
        out.append(dtype);
        out.append(")");
        proof {
            reveal_strlit("Series([], ");
            reveal_strlit("Name: ");
            reveal_strlit(", ");
            reveal_strlit("dtype: ");
            reveal_strlit(")");
            reveal_strlit("Series([], Name: ");
            reveal_strlit(", dtype: ");
            reveal_strlit("Series([], dtype: ");
            match name {
                Some(nm) => {
                    assert(out@ =~= "Series([], Name: "@ + nm@ + ", dtype: "@ + dtype@ + ")"@);
                },
                None => {
                    assert(out@ =~= "Series([], dtype: "@ + dtype@ + ")"@);
                },
            }
        }
        return out;
    }
    let ghost lv = texts(labels@);
    let ghost vv = texts(values@);
    let k = labels.len() / 2;
    let vw = max_width(&values);
    let mut labels2 = labels;
    let mut values2 = values;
    if truncated {
        labels2.insert(k, String::new());
        let dots = if vw > 3 { "..." } else { ".." };
        let e = crate::text::py_center(dots, vw);
        values2.insert(k, e);
        proof {
            reveal_strlit("...");
            reveal_strlit("..");
        }
        assert(texts(labels2@) =~= lv.insert(k as int, seq![]));
        assert(texts(values2@) =~= vv.insert(k as int, series_ellipsis(max_chars(vv))));
    }
    let mut out = String::new();
    match iname {
        Some(x) => {
            out.append(x);
            proof {
                reveal_strlit("\n");
            }
            out.append("\n");
        },
        None => {},
    }
    let body = vertical_body(&labels2, &values2);
    out.append(body.as_str());
    if footer {
        let mut parts: Vec<String> = Vec::new();
        match name {
            Some(nm) => {
                let mut p = "Name: ".to_owned();
                p.append(nm);
                parts.push(p);
            },
            None => {},
        }
        if truncated {
            let mut p = "Length: ".to_owned();
            p.append(u64_text(n as u64).as_str());
            parts.push(p);
        }
        let mut p = "dtype: ".to_owned();
        p.append(dtype);
        parts.push(p);
        proof {
            reveal_strlit("Name: ");
            reveal_strlit("Length: ");
            reveal_strlit("dtype: ");
            let mname = match name { Some(x) => Some(x@), None => None };
            assert(texts(parts@) =~= series_footer(mname, truncated, n as nat, dtype@));
        }
        proof {
            reveal_strlit("\n");
        }
        out.append("\n");
        out.append(join_comma(&parts).as_str());
    }
    out
}

} // verus!
