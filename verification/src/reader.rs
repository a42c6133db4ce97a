//! CSV column assembly and per-column type inference
//! (`i64` -> `f64` -> `bool` -> `str`).

use vstd::prelude::*;
use vstd::string::*;

use crate::text::{same_text, u64_text, nat_digits};
use crate::error::VolasError;

verus! {

/// Options controlling how a CSV file is read.
pub struct ReadCsvOptions {
    /// Field delimiter (default `b','`).
    pub delimiter: u8,
    /// Whether the first row is a header. When `false`, columns are named
    /// `"0".."n-1"` by position.
    pub has_header: bool,
    /// Additional strings to treat as missing (beyond the default tokens).
    pub na_values: Vec<String>,
    /// Whether the default missing-value tokens are recognized at all.
    pub keep_default_na: bool,
}

impl Default for ReadCsvOptions {
    fn default() -> (r: ReadCsvOptions)
        ensures
            r.delimiter == 44,
            r.has_header,
            r.na_values@.len() == 0,
            r.keep_default_na,
    {
        ReadCsvOptions { delimiter: 44, has_header: true, na_values: Vec::new(), keep_default_na: true }
    }
}

/// pandas's default missing-value tokens.
pub open spec fn default_na_tokens() -> Seq<Seq<char>> {
    seq![
        ""@, "#N/A"@, "#N/A N/A"@, "#NA"@, "-1.#IND"@, "-1.#QNAN"@, "-NaN"@, "-nan"@, "1.#IND"@,
        "1.#QNAN"@, "<NA>"@, "N/A"@, "NA"@, "NULL"@, "NaN"@, "None"@, "n/a"@, "nan"@, "null"@,
    ]
}

/// pandas's default missing-value tokens (`STR_NA_VALUES`): a numeric column
/// with any of these (trimmed) entries upcasts to `f64` with `NaN`.
pub fn default_na_values() -> (r: Vec<String>)
    ensures
        crate::frame::texts(r@) == default_na_tokens(),
{
    let toks: [&str; 19] = [
        "", "#N/A", "#N/A N/A", "#NA", "-1.#IND", "-1.#QNAN", "-NaN", "-nan", "1.#IND", "1.#QNAN",
        "<NA>", "N/A", "NA", "NULL", "NaN", "None", "n/a", "nan", "null",
    ];
    let mut r: Vec<String> = Vec::new();
    let mut i: usize = 0;
    while i < 19
        invariant
            i <= 19,
            toks@ == seq![
                "", "#N/A", "#N/A N/A", "#NA", "-1.#IND", "-1.#QNAN", "-NaN", "-nan", "1.#IND", "1.#QNAN",
                "<NA>", "N/A", "NA", "NULL", "NaN", "None", "n/a", "nan", "null",
            ],
            crate::frame::texts(r@) =~= default_na_tokens().take(i as int),
        decreases 19 - i,
    {
        let ghost before = r@;
        r.push(toks[i].to_owned());
        assert(crate::frame::texts(r@) =~= crate::frame::texts(before).push(toks@[i as int]@));
        i = i + 1;
    }
    assert(default_na_tokens().take(19) =~= default_na_tokens());
    r
}

/// The missing-value tokens that a set of options recognizes: the defaults
/// (when kept) and then the extra ones.
pub open spec fn spec_na_set(keep_default: bool, extra: Seq<Seq<char>>) -> Seq<Seq<char>> {
    (if keep_default { default_na_tokens() } else { seq![] }) + extra
}

/// The effective list of missing-value tokens for these options.
pub fn build_na_set(opts: &ReadCsvOptions) -> (r: Vec<String>)
    ensures
        crate::frame::texts(r@) == spec_na_set(opts.keep_default_na, crate::frame::texts(opts.na_values@)),
{
    let mut set: Vec<String> = if opts.keep_default_na { default_na_values() } else { Vec::new() };
    let ghost start = crate::frame::texts(set@);
    let mut i: usize = 0;
    while i < opts.na_values.len()
        invariant
            i <= opts.na_values.len(),
            start == (if opts.keep_default_na { default_na_tokens() } else { seq![] }),
            crate::frame::texts(set@) =~= start + crate::frame::texts(opts.na_values@).take(i as int),
        decreases opts.na_values.len() - i,
    {
        let ghost before = set@;
        set.push(opts.na_values[i].clone());
        assert(crate::frame::texts(set@) =~= crate::frame::texts(before).push(opts.na_values@[i as int]@));
        i = i + 1;
    }
    assert(crate::frame::texts(opts.na_values@).take(opts.na_values.len() as int) =~= crate::frame::texts(opts.na_values@));
    set
}

/// Unicode `White_Space` characters, which `str::trim` removes.
pub open spec fn is_white_space(c: char) -> bool {
    let u = c as u32;
    (0x9 <= u <= 0xD) || u == 0x20 || u == 0x85 || u == 0xA0 || u == 0x1680 || (0x2000 <= u <= 0x200A)
        || u == 0x2028 || u == 0x2029 || u == 0x202F || u == 0x205F || u == 0x3000
}

/// Number of leading white-space characters.
pub open spec fn lead_ws(s: Seq<char>) -> nat
    decreases s.len(),
{
    if s.len() > 0 && is_white_space(s[0]) { 1 + lead_ws(s.drop_first()) } else { 0 }
}

/// Number of trailing white-space characters.
pub open spec fn trail_ws(s: Seq<char>) -> nat
    decreases s.len(),
{
    if s.len() > 0 && is_white_space(s.last()) { 1 + trail_ws(s.drop_last()) } else { 0 }
}

/// `s` without leading and trailing white space.
pub open spec fn spec_trim(s: Seq<char>) -> Seq<char> {
    let a = lead_ws(s) as int;
    let b = s.len() - trail_ws(s);
    if a >= b { seq![] } else { s.subrange(a, b) }
}

/// `str::trim`: the string slice with leading and trailing Unicode white
/// space removed.
#[verifier::external_body]
pub(crate) fn trim_text(s: &str) -> (r: &str)
    ensures
        r@ == spec_trim(s@),
{
    s.trim()
}

pub open spec fn is_digit(c: char) -> bool {
    '0' <= c <= '9'
}

/// The value of a run of decimal digits.
pub open spec fn digits_value(s: Seq<char>) -> int
    decreases s.len(),
{
    if s.len() == 0 { 0 } else { digits_value(s.drop_last()) * 10 + (s.last() as int - '0' as int) }
}

/// What `str::parse::<i64>` gives: an optional `+` or `-` followed by one or
/// more ASCII digits, whose value fits in `i64`.
pub open spec fn spec_parse_i64(s: Seq<char>) -> Option<i64> {
    let neg = s.len() > 0 && s[0] == '-';
    let signed = s.len() > 0 && (s[0] == '-' || s[0] == '+');
    let d = if signed { s.drop_first() } else { s };
    let v = if neg { -digits_value(d) } else { digits_value(d) };
    if d.len() > 0 && (forall|i: int| 0 <= i < d.len() ==> is_digit(#[trigger] d[i])) && i64::MIN <= v
        <= i64::MAX {
        Some(v as i64)
    } else {
        None
    }
}

/// `str::parse::<i64>`, as an `Option`.
#[verifier::external_body]
pub(crate) fn parse_i64(s: &str) -> (r: Option<i64>)
    ensures
        r == spec_parse_i64(s@),
{
    s.parse::<i64>().ok()
}

pub open spec fn ascii_lower(c: char) -> char {
    if 'A' <= c <= 'Z' { ((c as u32) + 32) as char } else { c }
}

/// Whether `s` equals the lower-case ASCII word `w` ignoring ASCII case.
pub open spec fn eq_ignore_case(s: Seq<char>, w: Seq<char>) -> bool {
    s.len() == w.len() && forall|i: int| 0 <= i < s.len() ==> ascii_lower(#[trigger] s[i]) == w[i]
}

/// Whether `s` equals the lower-case ASCII word `w` ignoring ASCII case.
fn eq_ignore_case_text(s: &str, w: &str) -> (r: bool)
    ensures
        r == eq_ignore_case(s@, w@),
{
    let n = s.unicode_len();
    let m = w.unicode_len();
    if n != m {
        return false;
    }
    let mut i: usize = 0;
    while i < n
        invariant
            n == s@.len(),
            m == w@.len(),
            n == m,
            i <= n,
            forall|k: int| 0 <= k < i ==> ascii_lower(#[trigger] s@[k]) == w@[k],
        decreases n - i,
    {
        let c = s.get_char(i);
        let lc = if 'A' <= c && c <= 'Z' { ((c as u32) + 32) as u8 as char } else { c };
        assert(lc == ascii_lower(c)) by {
            if 'A' <= c && c <= 'Z' {
                assert((c as u32) + 32 < 256);
            }
        }
        if lc != w.get_char(i) {
            return false;
        }
        i = i + 1;
    }
    true
}

/// Whether `s` is a missing-value token.
pub fn na_contains(na: &Vec<String>, s: &str) -> (r: bool)
    ensures
        r == crate::frame::texts(na@).contains(s@),
{
    let mut i: usize = 0;
    while i < na.len()
        invariant
            i <= na.len(),
            forall|k: int| 0 <= k < i ==> crate::frame::texts(na@)[k] != s@,
        decreases na.len() - i,
    {
        assert(crate::frame::texts(na@)[i as int] == na@[i as int]@);
        if same_text(na[i].as_str(), s) {
            return true;
        }
        i = i + 1;
    }
    false
}

/// The dtype and values inferred for a column of text cells.
#[derive(Debug)]
pub enum Inferred {
    /// Every cell present and integral.
    I64(Vec<i64>),
    /// Every cell missing or a float; `missing[i]` marks the missing cells
    /// (read as `NaN`), the others parse as floats.
    F64(Vec<bool>),
    /// Every cell a `true` / `false` literal in any case.
    Bool(Vec<bool>),
    /// Anything else: the cells as they are.
    Str(Vec<String>),
}

pub enum InferredView {
    I64(Seq<i64>),
    F64(Seq<bool>),
    Bool(Seq<bool>),
    Str(Seq<Seq<char>>),
}

impl View for Inferred {
    type V = InferredView;

    open spec fn view(&self) -> InferredView {
        match self {
            Inferred::I64(v) => InferredView::I64(v@),
            Inferred::F64(v) => InferredView::F64(v@),
            Inferred::Bool(v) => InferredView::Bool(v@),
            Inferred::Str(v) => InferredView::Str(crate::frame::texts(v@)),
        }
    }
}

/// The most specific type of a column of cells (`i64` -> `f64` -> `bool` ->
/// `str`), treating the missing-value tokens `na` as missing; `float_ok[i]`
/// says whether the trimmed cell `i` parses as a float.
pub open spec fn spec_infer(cells: Seq<Seq<char>>, na: Seq<Seq<char>>, float_ok: Seq<bool>) -> InferredView {
    let t = cells.map_values(|c: Seq<char>| spec_trim(c));
    if cells.len() == 0 {
        InferredView::Str(cells)
    } else if forall|i: int| 0 <= i < t.len() ==> !na.contains(#[trigger] t[i]) && spec_parse_i64(t[i]) is Some {
        InferredView::I64(t.map_values(|c: Seq<char>| spec_parse_i64(c).unwrap()))
    } else if forall|i: int| 0 <= i < t.len() ==> na.contains(#[trigger] t[i]) || float_ok[i] {
        InferredView::F64(t.map_values(|c: Seq<char>| na.contains(c)))
    } else if forall|i: int| 0 <= i < t.len() ==> eq_ignore_case(#[trigger] t[i], "true"@) || eq_ignore_case(t[i], "false"@) {
        InferredView::Bool(t.map_values(|c: Seq<char>| eq_ignore_case(c, "true"@)))
    } else {
        InferredView::Str(cells)
    }
}

/// A missing cell is never read as a value. When a column is inferred as
/// integers, it has one integer per cell, each the one its trimmed cell
/// spells, and no trimmed cell is a missing-value token; so a column with a
/// missing cell is never integral. When every trimmed cell is missing or a
/// float and one is missing, the column is read as floats whose missing
/// flags are exactly the cells that are missing-value tokens.
pub proof fn law_missing_cells_are_missing(cells: Seq<Seq<char>>, na: Seq<Seq<char>>, float_ok: Seq<bool>)
    requires
        float_ok.len() == cells.len(),
    ensures
        spec_infer(cells, na, float_ok) matches InferredView::I64(v) ==> v.len() == cells.len() && forall|i: int|
            0 <= i < cells.len() ==> !na.contains(spec_trim(#[trigger] cells[i])) && spec_parse_i64(spec_trim(cells[i]))
                == Some(v[i]),
        (exists|i: int| 0 <= i < cells.len() && na.contains(spec_trim(#[trigger] cells[i]))) ==> !(spec_infer(
            cells,
            na,
            float_ok,
        ) is I64),
        ((exists|i: int| 0 <= i < cells.len() && na.contains(spec_trim(#[trigger] cells[i]))) && (forall|i: int|
            0 <= i < cells.len() ==> na.contains(spec_trim(#[trigger] cells[i])) || float_ok[i])) ==> (spec_infer(
            cells,
            na,
            float_ok,
        ) matches InferredView::F64(m) && m.len() == cells.len() && forall|i: int|
            0 <= i < cells.len() ==> #[trigger] m[i] == na.contains(spec_trim(cells[i]))),
{
    let t = cells.map_values(|c: Seq<char>| spec_trim(c));
    assert forall|i: int| 0 <= i < cells.len() implies #[trigger] t[i] == spec_trim(cells[i]) by {}
    if exists|i: int| 0 <= i < cells.len() && na.contains(spec_trim(#[trigger] cells[i])) {
        let w = choose|i: int| 0 <= i < cells.len() && na.contains(spec_trim(#[trigger] cells[i]));
        assert(na.contains(t[w]));
    }
    if spec_infer(cells, na, float_ok) is I64 {
        assert(cells.len() > 0);
        assert(forall|i: int| 0 <= i < t.len() ==> !na.contains(#[trigger] t[i]) && spec_parse_i64(t[i]) is Some);
    }
}

/// Infer the most specific column type from string cells (`i64` -> `f64` ->
/// `bool` -> `str`), treating NA tokens as missing. `float_ok[i]` tells
/// whether the trimmed cell `i` parses as a float.
pub fn infer_column(cells: Vec<String>, na: &Vec<String>, float_ok: &Vec<bool>) -> (r: Inferred)
    requires
        float_ok.len() == cells.len(),
    ensures
        r@ == spec_infer(crate::frame::texts(cells@), crate::frame::texts(na@), float_ok@),
{
    let ghost cv = crate::frame::texts(cells@);
    let ghost nv = crate::frame::texts(na@);
    let ghost t = cv.map_values(|c: Seq<char>| spec_trim(c));
    if cells.len() == 0 {
        return Inferred::Str(cells);
    }
    // i64: every cell present and integral.
    let mut ints: Vec<i64> = Vec::new();
    let mut all_int = true;
    let mut i: usize = 0;
    while i < cells.len() && all_int
        invariant
            cv == crate::frame::texts(cells@),
            t == cv.map_values(|c: Seq<char>| spec_trim(c)),
            nv == crate::frame::texts(na@),
            i <= cells.len(),
            all_int ==> ints@ =~= t.take(i as int).map_values(|c: Seq<char>| spec_parse_i64(c).unwrap()),
            all_int ==> forall|k: int| 0 <= k < i ==> !nv.contains(#[trigger] t[k]) && spec_parse_i64(t[k]) is Some,
            !all_int ==> exists|k: int| 0 <= k < cells.len() && !(!nv.contains(#[trigger] t[k]) && spec_parse_i64(t[k]) is Some),
        decreases cells.len() - i + (if all_int { 1int } else { 0int }),
    {
        assert(cv[i as int] == cells@[i as int]@);
        let c = trim_text(cells[i].as_str());
        assert(c@ == t[i as int]);
        if na_contains(na, c) {
            all_int = false;
            assert(!(!nv.contains(t[i as int]) && spec_parse_i64(t[i as int]) is Some));
        } else {
            match parse_i64(c) {
                Some(v) => {
                    ints.push(v);
                    assert(t.take(i + 1).map_values(|c: Seq<char>| spec_parse_i64(c).unwrap()) =~= t.take(i as int).map_values(|c: Seq<char>| spec_parse_i64(c).unwrap()).push(v));
                    i = i + 1;
                },
                None => {
                    all_int = false;
                    assert(!(!nv.contains(t[i as int]) && spec_parse_i64(t[i as int]) is Some));
                },
            }
        }
    }
    if all_int {
        assert(t.take(cells.len() as int) =~= t);
        assert(ints@ =~= t.map_values(|c: Seq<char>| spec_parse_i64(c).unwrap()));
        return Inferred::I64(ints);
    }
    // f64: every cell is either missing (-> NaN) or float-parseable.
    let mut missing: Vec<bool> = Vec::new();
    let mut all_float = true;
    let mut i: usize = 0;
    while i < cells.len() && all_float
        invariant
            cv == crate::frame::texts(cells@),
            t == cv.map_values(|c: Seq<char>| spec_trim(c)),
            nv == crate::frame::texts(na@),
            float_ok.len() == cells.len(),
            i <= cells.len(),
            all_float ==> missing@ =~= t.take(i as int).map_values(|c: Seq<char>| nv.contains(c)),
            all_float ==> forall|k: int| 0 <= k < i ==> nv.contains(#[trigger] t[k]) || float_ok@[k],
            !all_float ==> exists|k: int| 0 <= k < cells.len() && !(nv.contains(#[trigger] t[k]) || float_ok@[k]),
        decreases cells.len() - i + (if all_float { 1int } else { 0int }),
    {
        assert(cv[i as int] == cells@[i as int]@);
        let c = trim_text(cells[i].as_str());
        assert(c@ == t[i as int]);
        let m = na_contains(na, c);
        if !m && !float_ok[i] {
            all_float = false;
            assert(!(nv.contains(t[i as int]) || float_ok@[i as int]));
        } else {
            missing.push(m);
            assert(t.take(i + 1).map_values(|c: Seq<char>| nv.contains(c)) =~= t.take(i as int).map_values(|c: Seq<char>| nv.contains(c)).push(m));
            i = i + 1;
        }
    }
    if all_float {
        assert(t.take(cells.len() as int) =~= t);
        assert(missing@ =~= t.map_values(|c: Seq<char>| nv.contains(c)));
        assert(!(forall|k: int| 0 <= k < t.len() ==> !nv.contains(#[trigger] t[k]) && spec_parse_i64(t[k]) is Some));
        return Inferred::F64(missing);
    }
    // bool: every cell present and a true/false literal (any case).
    let mut flags: Vec<bool> = Vec::new();
    let mut all_bool = true;
    let mut i: usize = 0;
    while i < cells.len() && all_bool
        invariant
            cv == crate::frame::texts(cells@),
            t == cv.map_values(|c: Seq<char>| spec_trim(c)),
            i <= cells.len(),
            all_bool ==> flags@ =~= t.take(i as int).map_values(|c: Seq<char>| eq_ignore_case(c, "true"@)),
            all_bool ==> forall|k: int| 0 <= k < i ==> eq_ignore_case(#[trigger] t[k], "true"@) || eq_ignore_case(t[k], "false"@),
            !all_bool ==> exists|k: int| 0 <= k < cells.len() && !(eq_ignore_case(#[trigger] t[k], "true"@) || eq_ignore_case(t[k], "false"@)),
        decreases cells.len() - i + (if all_bool { 1int } else { 0int }),
    {
        assert(cv[i as int] == cells@[i as int]@);
        let c = trim_text(cells[i].as_str());
        assert(c@ == t[i as int]);
        let is_true = eq_ignore_case_text(c, "true");
        let is_false = eq_ignore_case_text(c, "false");
        if !is_true && !is_false {
            all_bool = false;
            assert(!(eq_ignore_case(t[i as int], "true"@) || eq_ignore_case(t[i as int], "false"@)));
        } else {
            flags.push(is_true);
            assert(t.take(i + 1).map_values(|c: Seq<char>| eq_ignore_case(c, "true"@)) =~= t.take(i as int).map_values(|c: Seq<char>| eq_ignore_case(c, "true"@)).push(is_true));
            i = i + 1;
        }
    }
    if all_bool {
        assert(t.take(cells.len() as int) =~= t);
        assert(flags@ =~= t.map_values(|c: Seq<char>| eq_ignore_case(c, "true"@)));
        assert(!(forall|k: int| 0 <= k < t.len() ==> !nv.contains(#[trigger] t[k]) && spec_parse_i64(t[k]) is Some));
        assert(!(forall|k: int| 0 <= k < t.len() ==> nv.contains(#[trigger] t[k]) || float_ok@[k]));
        return Inferred::Bool(flags);
    }
    assert(!(forall|k: int| 0 <= k < t.len() ==> !nv.contains(#[trigger] t[k]) && spec_parse_i64(t[k]) is Some));
    assert(!(forall|k: int| 0 <= k < t.len() ==> nv.contains(#[trigger] t[k]) || float_ok@[k]));
    assert(!(forall|k: int| 0 <= k < t.len() ==> eq_ignore_case(#[trigger] t[k], "true"@) || eq_ignore_case(t[k], "false"@)));
    Inferred::Str(cells)
}

/// One record step of column assembly: the first record fixes the number of
/// columns when none is known yet; each record adds one cell to every column
/// (an empty one where the record is short).
pub open spec fn assemble_step(raw: Seq<Seq<Seq<char>>>, rec: Seq<Seq<char>>) -> Seq<Seq<Seq<char>>> {
    let base = if raw.len() == 0 { Seq::new(rec.len(), |_j: int| Seq::<Seq<char>>::empty()) } else { raw };
    Seq::new(base.len(), |j: int| base[j].push(if j < rec.len() { rec[j] } else { ""@ }))
}

/// The columns assembled from records, starting from `init`.
pub open spec fn spec_assemble(init: Seq<Seq<Seq<char>>>, recs: Seq<Seq<Seq<char>>>) -> Seq<Seq<Seq<char>>>
    decreases recs.len(),
{
    if recs.len() == 0 {
        init
    } else {
        assemble_step(spec_assemble(init, recs.drop_last()), recs.last())
    }
}

pub open spec fn record_views(recs: Seq<Vec<String>>) -> Seq<Seq<Seq<char>>> {
    recs.map_values(|r: Vec<String>| crate::frame::texts(r@))
}

pub open spec fn column_texts(cols: Seq<Vec<String>>) -> Seq<Seq<Seq<char>>> {
    cols.map_values(|c: Vec<String>| crate::frame::texts(c@))
}

/// Column names `"0".."n-1"`.
pub open spec fn positional_names(n: nat) -> Seq<Seq<char>> {
    Seq::new(n, |i: int| nat_digits(i as nat))
}

/// Transpose CSV records into columns of cells and name the columns: by the
/// header when there is one, else by position. Short records are padded with
/// empty cells; extra fields are dropped.
pub fn assemble_columns(has_header: bool, header: Vec<String>, records: &Vec<Vec<String>>) -> (r: (
    Vec<String>,
    Vec<Vec<String>>,
))
    ensures
        column_texts(r.1@) == spec_assemble(
            Seq::new((if has_header { header.len() } else { 0 }) as nat, |_j: int| Seq::<Seq<char>>::empty()),
            record_views(records@),
        ),
        crate::frame::texts(r.0@) == if has_header { crate::frame::texts(header@) } else { positional_names(r.1.len() as nat) },
{
    let ncol0 = if has_header { header.len() } else { 0 };
    let mut raw: Vec<Vec<String>> = Vec::new();
    let mut j: usize = 0;
    while j < ncol0
        invariant
            j <= ncol0,
            raw.len() == j,
            forall|k: int| 0 <= k < j ==> (#[trigger] raw@[k])@.len() == 0,
        decreases ncol0 - j,
    {
        raw.push(Vec::new());
        j = j + 1;
    }
    let ghost init = Seq::new(ncol0 as nat, |_j: int| Seq::<Seq<char>>::empty());
    assert(column_texts(raw@) =~~= init);
    let ghost rv = record_views(records@);
    let mut i: usize = 0;
    while i < records.len()
        invariant
            rv == record_views(records@),
            i <= records.len(),
            column_texts(raw@) == spec_assemble(init, rv.take(i as int)),
        decreases records.len() - i,
    {
        let rec = &records[i];
        assert(rv[i as int] == crate::frame::texts(rec@));
        assert(rv.take(i + 1).drop_last() =~= rv.take(i as int));
        let ghost before = column_texts(raw@);
        if raw.len() == 0 {
            let mut k: usize = 0;
            while k < rec.len()
                invariant
                    raw.len() == k,
                    k <= rec.len(),
                    forall|q: int| 0 <= q < k ==> (#[trigger] raw@[q])@.len() == 0,
                decreases rec.len() - k,
            {
                raw.push(Vec::new());
                k = k + 1;
            }
            assert(column_texts(raw@) =~~= Seq::new(rec.len() as nat, |_j: int| Seq::<Seq<char>>::empty()));
        }
        let ghost base = column_texts(raw@);
        let n = raw.len();
        let mut j: usize = 0;
        while j < n
            invariant
                n == raw.len(),
                j <= n,
                base.len() == n,
                forall|q: int| 0 <= q < j ==> crate::frame::texts((#[trigger] raw@[q])@) == base[q].push(
                    if q < rec.len() { crate::frame::texts(rec@)[q] } else { ""@ },
                ),
                forall|q: int| j <= q < n ==> crate::frame::texts((#[trigger] raw@[q])@) == base[q],
            decreases n - j,
        {
            let cell = if j < rec.len() { rec[j].clone() } else { "".to_owned() };
            let ghost cb = raw@[j as int]@;
            raw[j].push(cell);
            assert(crate::frame::texts(raw@[j as int]@) =~= crate::frame::texts(cb).push(
                if j < rec.len() { crate::frame::texts(rec@)[j as int] } else { ""@ },
            ));
            j = j + 1;
        }
        assert(column_texts(raw@) =~= assemble_step(before, crate::frame::texts(rec@)));
        i = i + 1;
    }
    assert(rv.take(records.len() as int) =~= rv);
    let names = if has_header {
        header
    } else {
        let mut names: Vec<String> = Vec::new();
        let mut j: usize = 0;
        while j < raw.len()
            invariant
                j <= raw.len(),
                crate::frame::texts(names@) =~= positional_names(raw.len() as nat).take(j as int),
            decreases raw.len() - j,
        {
            let ghost before = names@;
            names.push(u64_text(j as u64));
            assert(crate::frame::texts(names@) =~= crate::frame::texts(before).push(nat_digits(j as nat)));
            j = j + 1;
        }
        assert(positional_names(raw.len() as nat).take(raw.len() as int) =~= positional_names(raw.len() as nat));
        names
    };
    (names, raw)
}

/// What the `csv` crate reads from the bytes `text` with field delimiter
/// `delimiter` (each row needing the same number of fields): the fields of
/// the first row, and the fields of every row after it when `has_header`, of
/// every row otherwise; `None` when the bytes are not such CSV (a ragged row,
/// a field that is not UTF-8).
pub uninterp spec fn csv_records(text: Seq<u8>, delimiter: u8, has_header: bool) -> Option<(Seq<Seq<char>>, Seq<Seq<Seq<char>>>)>;

/// Parse CSV bytes with `csv::ReaderBuilder` (`delimiter`, `has_headers`):
/// `Reader::headers` gives the first row, `Reader::records` the records. The
/// contract only names the result ([`csv_records`]); a parse error of the
/// crate is a `Value` error.
#[verifier::external_body]
fn parse_csv(text: &[u8], delimiter: u8, has_header: bool) -> (r: Result<(Vec<String>, Vec<Vec<String>>), VolasError>)
    ensures
        match r {
            Ok(v) => csv_records(text@, delimiter, has_header) == Some((crate::frame::texts(v.0@), record_views(v.1@))),
            Err(e) => csv_records(text@, delimiter, has_header) is None && e is Value,
        },
{
    let mut rdr = csv::ReaderBuilder::new().delimiter(delimiter).has_headers(has_header).from_reader(text);
    let head: Vec<String> = match rdr.headers() {
        Ok(h) => h.iter().map(String::from).collect(),
        Err(e) => return Err(VolasError::Value(format!("bad CSV header: {e}"))),
    };
    let mut recs: Vec<Vec<String>> = Vec::new();
    for rec in rdr.records() {
        match rec {
            Ok(row) => recs.push(row.iter().map(String::from).collect()),
            Err(e) => return Err(VolasError::Value(format!("bad CSV record: {e}"))),
        }
    }
    Ok((head, recs))
}

/// The named raw columns of CSV bytes: the records transposed into columns
/// (see [`spec_assemble`]), named by the first row when `has_header`, else
/// `"0".."n-1"`; `None` when the bytes are not CSV or the names and columns
/// differ in number (a header-less file whose records have fields).
pub open spec fn spec_read_csv_text(text: Seq<u8>, delimiter: u8, has_header: bool) -> Option<(Seq<Seq<char>>, Seq<Seq<Seq<char>>>)> {
    match csv_records(text, delimiter, has_header) {
        None => None,
        Some((head, recs)) => {
            let cols = spec_assemble(
                Seq::new((if has_header { head.len() } else { 0 }) as nat, |_j: int| Seq::<Seq<char>>::empty()),
                recs,
            );
            let names = if has_header { head } else { positional_names(cols.len()) };
            if names.len() == cols.len() { Some((names, cols)) } else { None }
        },
    }
}

/// Read CSV bytes into named raw columns of cells (see
/// [`spec_read_csv_text`]); what is not CSV, or gives names and columns in
/// different numbers, is a `Value` error.
pub fn read_csv_text(text: &[u8], opts: &ReadCsvOptions) -> (r: Result<(Vec<String>, Vec<Vec<String>>), VolasError>)
    ensures
        match r {
            Ok(v) => spec_read_csv_text(text@, opts.delimiter, opts.has_header) == Some(
                (crate::frame::texts(v.0@), column_texts(v.1@)),
            ),
            Err(e) => spec_read_csv_text(text@, opts.delimiter, opts.has_header) is None && e is Value,
        },
{
    let (head, recs) = parse_csv(text, opts.delimiter, opts.has_header)?;
    let header = if opts.has_header { head } else { Vec::new() };
    let (names, raw) = assemble_columns(opts.has_header, header, &recs);
    if names.len() != raw.len() {
        return Err(VolasError::Value("the numbers of column names and columns differ".to_owned()));
    }
    proof {
        assert(crate::frame::texts(names@).len() == names@.len());
        assert(column_texts(raw@).len() == raw@.len());
    }
    Ok((names, raw))
}

} // verus!
