//! Parsers for the tool's tabular text output.
//!
//! A table is a header line, a dashed separator, and data rows.  Column
//! boundaries are recovered from the visual start positions of the header
//! words, counting a non-ASCII character as two cells of a monospaced
//! console; each row is then cut at those positions.  Position arithmetic
//! saturates at the machine limit, which no real line can reach.

use crate::models::{SearchResult, WingetPackage};
use crate::strutil::{
    contains_seq, contains_str, is_blank, is_ws_char, lines_of, split_lines, str_eq, str_is_blank,
    str_to_chars, trim_chars, trim_spec, chars_to_string, lemma_push_deep_view, whitespace_char,
};
use crate::settings::is_truncated_spec;
use vstd::prelude::*;

verus! {

/// The visual width of one character in a monospaced console: one cell
/// for ASCII, two for everything else.
pub open spec fn char_vw(c: char) -> int {
    if (c as u32) <= 0x7F {
        1
    } else {
        2
    }
}

/// Executable form of [`char_vw`].
pub fn get_visual_width(c: char) -> (r: usize)
    ensures
        r == char_vw(c),
{
    if (c as u32) <= 0x7F {
        1
    } else {
        2
    }
}

/// Machine-limited addition: the sum, saturated at the largest `usize`.
pub open spec fn sat_add(a: int, b: int) -> int {
    if a + b > usize::MAX {
        usize::MAX as int
    } else {
        a + b
    }
}

/// The visual start positions of the header's words: a word begins at a
/// non-whitespace character that follows whitespace or starts the line.
pub open spec fn col_starts_acc(
    h: Seq<char>,
    i: int,
    vw: int,
    in_word: bool,
    acc: Seq<int>,
) -> Seq<int>
    decreases h.len() - i,
{
    if i < 0 || i >= h.len() {
        acc
    } else {
        let w = char_vw(h[i]);
        if !is_ws_char(h[i]) && !in_word {
            col_starts_acc(h, i + 1, sat_add(vw, w), true, acc.push(vw))
        } else if is_ws_char(h[i]) {
            col_starts_acc(h, i + 1, sat_add(vw, w), false, acc)
        } else {
            col_starts_acc(h, i + 1, sat_add(vw, w), in_word, acc)
        }
    }
}

/// The column start positions of a header line.
pub open spec fn col_starts_of(h: Seq<char>) -> Seq<int> {
    col_starts_acc(h, 0, 0, false, Seq::empty())
}

/// The index of the first line containing a dashed separator, or `-1`.
pub open spec fn first_sep(lines: Seq<Seq<char>>) -> int
    decreases lines.len(),
{
    if lines.len() == 0 {
        -1
    } else if contains_seq(lines[0], "---"@) {
        0
    } else {
        let r = first_sep(lines.skip(1));
        if r == -1 {
            -1
        } else {
            1 + r
        }
    }
}

proof fn lemma_first_sep_at(lines: Seq<Seq<char>>, k: int)
    requires
        0 <= k < lines.len(),
        contains_seq(lines[k], "---"@),
        forall|t: int| 0 <= t < k ==> !contains_seq(#[trigger] lines[t], "---"@),
    ensures
        first_sep(lines) == k,
    decreases k,
{
    if k == 0 {
    } else {
        assert(!contains_seq(lines[0], "---"@));
        assert(lines.skip(1)[k - 1] == lines[k]);
        assert forall|t: int| 0 <= t < k - 1 implies !contains_seq(
            #[trigger] lines.skip(1)[t],
            "---"@,
        ) by {
            assert(lines.skip(1)[t] == lines[t + 1]);
        }
        lemma_first_sep_at(lines.skip(1), k - 1);
    }
}

proof fn lemma_first_sep_none(lines: Seq<Seq<char>>)
    requires
        forall|t: int| 0 <= t < lines.len() ==> !contains_seq(#[trigger] lines[t], "---"@),
    ensures
        first_sep(lines) == -1,
    decreases lines.len(),
{
    if lines.len() > 0 {
        assert forall|t: int| 0 <= t < lines.skip(1).len() implies !contains_seq(
            #[trigger] lines.skip(1)[t],
            "---"@,
        ) by {
            assert(lines.skip(1)[t] == lines[t + 1]);
        }
        lemma_first_sep_none(lines.skip(1));
    }
}

/// The header line the column positions are read from: the line above the
/// separator, or the first line when the separator comes first.
pub open spec fn header_of(lines: Seq<Seq<char>>, sep: int) -> Seq<char> {
    if sep > 0 {
        lines[sep - 1]
    } else {
        lines[0]
    }
}

/// Locates the dashed separator and probes the visual start position of
/// each header column.  Returns the positions, the lines, and the
/// separator's index; `None` without a separator.
pub fn get_col_starts(out: &str) -> (r: Option<(Vec<usize>, Vec<String>, usize)>)
    ensures
        r is None <==> first_sep(lines_of(out@)) == -1,
        r matches Some(t) ==> {
            let lines = lines_of(out@);
            let sep = first_sep(lines);
            &&& t.1.deep_view() == lines
            &&& t.2 == sep
            &&& 0 <= sep < lines.len()
            &&& t.0@.len() == col_starts_of(header_of(lines, sep)).len()
            &&& forall|k: int|
                0 <= k < t.0@.len() ==> t.0@[k] == col_starts_of(header_of(lines, sep))[k]
        },
{
    let lines = split_lines(out);
    let n: usize = lines.len();
    let mut sep_idx: usize = 0;
    let mut found: bool = false;
    while sep_idx < n && !found
        invariant
            sep_idx <= n,
            n == lines@.len(),
            lines.deep_view() == lines_of(out@),
            !found ==> forall|t: int|
                0 <= t < sep_idx ==> !contains_seq(#[trigger] lines.deep_view()[t], "---"@),
            found ==> sep_idx < n && contains_seq(lines.deep_view()[sep_idx as int], "---"@)
                && forall|t: int|
                0 <= t < sep_idx ==> !contains_seq(#[trigger] lines.deep_view()[t], "---"@),
        decreases n - sep_idx + (if found { 0int } else { 1int }),
    {
        proof {
            assert(lines.deep_view()[sep_idx as int] == lines@[sep_idx as int]@);
        }
        if contains_str(lines[sep_idx].as_str(), "---") {
            found = true;
        } else {
            sep_idx = sep_idx + 1;
        }
    }
    if !found {
        proof {
            lemma_first_sep_none(lines.deep_view());
        }
        return None;
    }
    proof {
        lemma_first_sep_at(lines.deep_view(), sep_idx as int);
    }
    let header_idx: usize = if sep_idx > 0 {
        sep_idx - 1
    } else {
        0
    };
    let header = str_to_chars(lines[header_idx].as_str());
    let ghost h = header_of(lines.deep_view(), sep_idx as int);
    proof {
        assert(lines@[header_idx as int]@ == lines.deep_view()[header_idx as int]);
        assert(header@ == h);
    }
    let hn: usize = header.len();
    let mut col_starts: Vec<usize> = Vec::new();
    let ghost mut gstarts: Seq<int> = Seq::empty();
    let mut current_vw: usize = 0;
    let mut in_word: bool = false;
    let mut i: usize = 0;
    while i < hn
        invariant
            i <= hn,
            hn == h.len(),
            header@ == h,
            col_starts@.len() == gstarts.len(),
            forall|k: int| 0 <= k < gstarts.len() ==> col_starts@[k] == #[trigger] gstarts[k],
            col_starts_acc(h, i as int, current_vw as int, in_word, gstarts) == col_starts_of(h),
        decreases hn - i,
    {
        let c = header[i];
        let w = get_visual_width(c);
        let ws = whitespace_char(c);
        if !ws && !in_word {
            col_starts.push(current_vw);
            proof {
                gstarts = gstarts.push(current_vw as int);
            }
            in_word = true;
        } else if ws {
            in_word = false;
        }
        current_vw = current_vw.saturating_add(w);
        i = i + 1;
    }
    Some((col_starts, lines, sep_idx))
}

/// One pass of column splitting: a column ends at a whitespace character
/// whose successor is whitespace or the line end; a single whitespace
/// inside a word does not split.  Each piece is trimmed.
pub open spec fn split_cols_acc(
    s: Seq<char>,
    i: int,
    start: int,
    in_word: bool,
    acc: Seq<Seq<char>>,
) -> Seq<Seq<char>>
    decreases s.len() - i,
{
    if i < 0 || i >= s.len() {
        if in_word {
            acc.push(trim_spec(s.subrange(start, s.len() as int)))
        } else {
            acc
        }
    } else if !is_ws_char(s[i]) {
        if !in_word {
            split_cols_acc(s, i + 1, i, true, acc)
        } else {
            split_cols_acc(s, i + 1, start, true, acc)
        }
    } else if in_word && (i + 1 >= s.len() || is_ws_char(s[i + 1])) {
        split_cols_acc(s, i + 1, start, false, acc.push(trim_spec(s.subrange(start, i))))
    } else {
        split_cols_acc(s, i + 1, start, in_word, acc)
    }
}

/// The columns of one table line.
pub open spec fn split_columns_spec(s: Seq<char>) -> Seq<Seq<char>> {
    split_cols_acc(s, 0, 0, false, Seq::empty())
}

/// Splits one table line into its columns: runs of two or more spaces
/// separate columns, single spaces stay inside one column.
pub fn split_columns(line: &str) -> (r: Vec<String>)
    ensures
        r.deep_view() == split_columns_spec(line@),
{
    let chars = str_to_chars(line);
    let n: usize = chars.len();
    let mut res: Vec<String> = Vec::new();
    let mut start: usize = 0;
    let mut in_word: bool = false;
    let mut i: usize = 0;
    proof {
        assert(res.deep_view() =~= Seq::<Seq<char>>::empty());
    }
    while i < n
        invariant
            i <= n,
            start <= i,
            n == line@.len(),
            chars@ == line@,
            split_cols_acc(line@, i as int, start as int, in_word, res.deep_view())
                == split_columns_spec(line@),
        decreases n - i,
    {
        let c = chars[i];
        if !whitespace_char(c) {
            if !in_word {
                start = i;
                in_word = true;
            }
        } else if in_word && (i + 1 >= n || whitespace_char(chars[i + 1])) {
            let piece = crate::settings::subrange_chars(&chars, start, i);
            let trimmed = trim_chars(&piece);
            let part = chars_to_string(&trimmed);
            let ghost pre = res;
            res.push(part);
            proof {
                lemma_push_deep_view(&pre, &res, res@.last());
                assert(res.deep_view() == pre.deep_view().push(
                    trim_spec(line@.subrange(start as int, i as int)),
                ));
            }
            in_word = false;
        }
        i = i + 1;
    }
    if in_word {
        let piece = crate::settings::subrange_chars(&chars, start, n);
        let trimmed = trim_chars(&piece);
        let part = chars_to_string(&trimmed);
        let ghost pre = res;
        res.push(part);
        proof {
            lemma_push_deep_view(&pre, &res, res@.last());
            assert(res.deep_view() == pre.deep_view().push(
                trim_spec(line@.subrange(start as int, n as int)),
            ));
        }
    }
    res
}

/// The saturated visual position of the first `i` characters.
pub open spec fn vw_prefix(s: Seq<char>, i: int) -> int
    decreases i,
{
    if i <= 0 {
        0
    } else {
        sat_add(vw_prefix(s, i - 1), char_vw(s[i - 1]))
    }
}

/// Whether the character at `j` overlaps the visual span `[lo, hi)`.
pub open spec fn in_col(s: Seq<char>, j: int, lo: int, hi: int) -> bool {
    vw_prefix(s, j + 1) > lo && vw_prefix(s, j) < hi
}

/// The characters of `s`, from `j` on, whose visual span overlaps
/// `[lo, hi)`.
pub open spec fn collect_range(s: Seq<char>, j: int, lo: int, hi: int) -> Seq<char>
    decreases s.len() - j,
{
    if j < 0 || j >= s.len() {
        Seq::empty()
    } else {
        (if in_col(s, j, lo, hi) {
            seq![s[j]]
        } else {
            Seq::empty()
        }) + collect_range(s, j + 1, lo, hi)
    }
}

/// The end position of column `i`: the next column's start, or the fixed
/// far bound for the last column.
pub open spec fn col_end(starts: Seq<int>, i: int) -> int {
    if i + 1 < starts.len() {
        starts[i + 1]
    } else {
        9999
    }
}

/// The columns cut from one line at the given start positions, trimmed.
pub open spec fn extract_parts_spec(s: Seq<char>, starts: Seq<int>) -> Seq<Seq<char>> {
    Seq::new(starts.len(), |i: int| trim_spec(collect_range(s, 0, starts[i], col_end(starts, i))))
}

/// The integer values of a vector of positions.
pub open spec fn ints_of(v: Seq<usize>) -> Seq<int> {
    Seq::new(v.len(), |i: int| v[i] as int)
}

/// Cuts one line into columns at the given visual start positions; each
/// column is trimmed.
pub fn extract_parts(line: &str, col_starts: &Vec<usize>) -> (r: Vec<String>)
    ensures
        r.deep_view() == extract_parts_spec(line@, ints_of(col_starts@)),
{
    let chars = str_to_chars(line);
    let n: usize = chars.len();
    let m: usize = col_starts.len();
    let ghost starts = ints_of(col_starts@);
    let mut res: Vec<String> = Vec::new();
    let mut i: usize = 0;
    while i < m
        invariant
            i <= m,
            m == starts.len(),
            n == line@.len(),
            chars@ == line@,
            col_starts@.len() == starts.len(),
            forall|k: int| 0 <= k < starts.len() ==> col_starts@[k] == #[trigger] starts[k],
            res@.len() == i,
            forall|k: int|
                0 <= k < i ==> #[trigger] res.deep_view()[k] == extract_parts_spec(
                    line@,
                    starts,
                )[k],
        decreases m - i,
    {
        let lo: usize = col_starts[i];
        let hi: usize = if i + 1 < m {
            col_starts[i + 1]
        } else {
            9999
        };
        proof {
            assert(hi as int == col_end(starts, i as int));
        }
        let mut cur: Vec<char> = Vec::new();
        let mut vpos: usize = 0;
        let mut j: usize = 0;
        proof {
            assert(Seq::<char>::empty() + collect_range(line@, 0, lo as int, hi as int)
                =~= collect_range(line@, 0, lo as int, hi as int));
        }
        while j < n
            invariant
                j <= n,
                n == line@.len(),
                chars@ == line@,
                vpos == vw_prefix(line@, j as int),
                cur@ + collect_range(line@, j as int, lo as int, hi as int) == collect_range(
                    line@,
                    0,
                    lo as int,
                    hi as int,
                ),
            decreases n - j,
        {
            let c = chars[j];
            let w = get_visual_width(c);
            let ce: usize = vpos.saturating_add(w);
            proof {
                assert(ce as int == vw_prefix(line@, j + 1));
            }
            if ce > lo && vpos < hi {
                let ghost before = cur@;
                cur.push(c);
                proof {
                    assert(cur@ =~= before + seq![line@[j as int]]);
                    assert(before + seq![line@[j as int]] + collect_range(
                        line@,
                        j + 1,
                        lo as int,
                        hi as int,
                    ) =~= before + (seq![line@[j as int]] + collect_range(
                        line@,
                        j + 1,
                        lo as int,
                        hi as int,
                    )));
                }
            }
            vpos = ce;
            j = j + 1;
        }
        proof {
            assert(collect_range(line@, n as int, lo as int, hi as int) =~= Seq::<char>::empty());
            assert(cur@ + Seq::<char>::empty() =~= cur@);
        }
        let trimmed = trim_chars(&cur);
        let part = chars_to_string(&trimmed);
        let ghost pre = res;
        res.push(part);
        proof {
            lemma_push_deep_view(&pre, &res, res@.last());
        }
        i = i + 1;
    }
    proof {
        assert(res.deep_view() =~= extract_parts_spec(line@, starts));
    }
    res
}

/// True iff a seen-list already holds the id.
pub open spec fn seen_has(seen: Seq<Seq<char>>, id: Seq<char>) -> bool {
    exists|k: int| 0 <= k < seen.len() && #[trigger] seen[k] == id
}

/// Whether a row is filtered out: a truncated field, a foreign source, an
/// empty id, or an id already seen.
pub open spec fn invalid_or_dup(
    fields: Seq<Seq<char>>,
    id: Seq<char>,
    source: Seq<char>,
    seen: Seq<Seq<char>>,
) -> bool {
    ||| exists|k: int| 0 <= k < fields.len() && is_truncated_spec(#[trigger] fields[k])
    ||| source != "winget"@
    ||| id.len() == 0
    ||| seen_has(seen, id)
}

/// Filters one row and records its id: a row with a truncated field, a
/// source other than the tool's own, an empty id or a repeated id is
/// rejected; an accepted row's id joins the seen-list.
pub fn is_invalid_or_duplicate(
    fields: &Vec<String>,
    id: &str,
    source: &str,
    seen: &mut Vec<String>,
) -> (r: bool)
    ensures
        r == invalid_or_dup(fields.deep_view(), id@, source@, old(seen).deep_view()),
        r ==> final(seen)@ == old(seen)@,
        !r ==> final(seen).deep_view() == old(seen).deep_view().push(id@),
{
    let mut i: usize = 0;
    while i < fields.len()
        invariant
            i <= fields@.len(),
            seen == old(seen),
            forall|k: int|
                0 <= k < i ==> !is_truncated_spec(#[trigger] fields.deep_view()[k]),
        decreases fields@.len() - i,
    {
        proof {
            assert(fields.deep_view()[i as int] == fields@[i as int]@);
        }
        if crate::settings::is_truncated(fields[i].as_str()) {
            return true;
        }
        i = i + 1;
    }
    if !str_eq(source, "winget") {
        return true;
    }
    if id.is_empty() {
        return true;
    }
    let mut k: usize = 0;
    while k < seen.len()
        invariant
            k <= seen@.len(),
            seen == old(seen),
            forall|t: int| 0 <= t < k ==> #[trigger] seen.deep_view()[t] != id@,
        decreases seen@.len() - k,
    {
        proof {
            assert(seen.deep_view()[k as int] == seen@[k as int]@);
        }
        if str_eq(seen[k].as_str(), id) {
            return true;
        }
        k = k + 1;
    }
    let ghost pre = *seen;
    seen.push(id.to_owned());
    proof {
        lemma_push_deep_view(&pre, seen, seen@.last());
    }
    false
}

/// The accepted rows of a package table, with the seen-list threaded
/// through: name, id, installed version, available version, source.
pub open spec fn list_rows(lines: Seq<Seq<char>>, starts: Seq<int>, seen: Seq<Seq<char>>) -> Seq<
    (Seq<char>, Seq<char>, Seq<char>, Seq<char>, Seq<char>),
>
    decreases lines.len(),
{
    if lines.len() == 0 {
        Seq::empty()
    } else {
        let l = lines[0];
        let rest = lines.skip(1);
        if is_blank(l) || contains_seq(l, "---"@) {
            list_rows(rest, starts, seen)
        } else {
            let parts = extract_parts_spec(l, starts);
            if parts.len() < 5 {
                list_rows(rest, starts, seen)
            } else {
                let fields = seq![parts[0], parts[1], parts[2], parts[3], parts[4]];
                if invalid_or_dup(fields, parts[1], parts[4], seen) {
                    list_rows(rest, starts, seen)
                } else {
                    seq![(parts[0], parts[1], parts[2], parts[3], parts[4])] + list_rows(
                        rest,
                        starts,
                        seen.push(parts[1]),
                    )
                }
            }
        }
    }
}

/// The rows that parsing an installed-or-upgradable table yields.
pub open spec fn parse_list_spec(out: Seq<char>) -> Seq<
    (Seq<char>, Seq<char>, Seq<char>, Seq<char>, Seq<char>),
> {
    let lines = lines_of(out);
    let sep = first_sep(lines);
    if sep == -1 {
        Seq::empty()
    } else {
        list_rows(lines.skip(sep + 1), col_starts_of(header_of(lines, sep)), Seq::empty())
    }
}

/// Parses the installed-or-upgradable package table: rows after the
/// separator with at least five columns, filtered and deduplicated by id.
pub fn parse_list(out: &str) -> (r: Vec<WingetPackage>)
    ensures
        r@.len() == parse_list_spec(out@).len(),
        forall|k: int|
            0 <= k < r@.len() ==> {
                let row = parse_list_spec(out@)[k];
                &&& (#[trigger] r@[k]).name@ == row.0
                &&& r@[k].id@ == row.1
                &&& r@[k].version@ == row.2
                &&& r@[k].available.deep_view() == (if row.3.len() == 0 {
                    Option::<Seq<char>>::None
                } else {
                    Option::<Seq<char>>::Some(row.3)
                })
                &&& r@[k].source.deep_view() == Option::<Seq<char>>::Some(row.4)
            },
{
    let got = match get_col_starts(out) {
        Some(t) => t,
        None => {
            return Vec::new();
        },
    };
    let (col_starts, lines, sep_idx) = got;
    let ghost starts = ints_of(col_starts@);
    let ghost ldv = lines.deep_view();
    let ghost total = parse_list_spec(out@);
    proof {
        assert forall|k: int| 0 <= k < starts.len() implies col_starts@[k]
            == #[trigger] starts[k] by {}
        assert(starts =~= col_starts_of(header_of(ldv, sep_idx as int)));
    }
    let n: usize = lines.len();
    let mut items: Vec<WingetPackage> = Vec::new();
    let mut seen: Vec<String> = Vec::new();
    let ghost mut done: Seq<(Seq<char>, Seq<char>, Seq<char>, Seq<char>, Seq<char>)> =
        Seq::empty();
    let mut i: usize = sep_idx + 1;
    proof {
        assert(seen.deep_view() =~= Seq::<Seq<char>>::empty());
        assert(Seq::<(Seq<char>, Seq<char>, Seq<char>, Seq<char>, Seq<char>)>::empty() + list_rows(
            ldv.skip(sep_idx + 1),
            starts,
            seen.deep_view(),
        ) =~= list_rows(ldv.skip(sep_idx + 1), starts, seen.deep_view()));
    }
    while i < n
        invariant
            sep_idx + 1 <= i <= n,
            n == lines@.len(),
            ldv == lines.deep_view(),
            starts == ints_of(col_starts@),
            total == parse_list_spec(out@),
            done + list_rows(ldv.skip(i as int), starts, seen.deep_view()) == total,
            items@.len() == done.len(),
            forall|k: int|
                0 <= k < items@.len() ==> {
                    let row = done[k];
                    &&& (#[trigger] items@[k]).name@ == row.0
                    &&& items@[k].id@ == row.1
                    &&& items@[k].version@ == row.2
                    &&& items@[k].available.deep_view() == (if row.3.len() == 0 {
                        Option::<Seq<char>>::None
                    } else {
                        Option::<Seq<char>>::Some(row.3)
                    })
                    &&& items@[k].source.deep_view() == Option::<Seq<char>>::Some(row.4)
                },
        decreases n - i,
    {
        proof {
            assert(ldv.skip(i as int).skip(1) =~= ldv.skip(i + 1));
            assert(ldv.skip(i as int)[0] == ldv[i as int]);
            assert(ldv[i as int] == lines@[i as int]@);
        }
        let line = &lines[i];
        if str_is_blank(line.as_str()) || contains_str(line.as_str(), "---") {
            proof {
                assert(list_rows(ldv.skip(i as int), starts, seen.deep_view()) == list_rows(
                    ldv.skip(i + 1),
                    starts,
                    seen.deep_view(),
                ));
            }
            i = i + 1;
            continue;
        }
        let parts = extract_parts(line.as_str(), &col_starts);
        if parts.len() < 5 {
            proof {
                assert(extract_parts_spec(ldv[i as int], starts).len() == parts@.len());
                assert(list_rows(ldv.skip(i as int), starts, seen.deep_view()) == list_rows(
                    ldv.skip(i + 1),
                    starts,
                    seen.deep_view(),
                ));
            }
            i = i + 1;
            continue;
        }
        proof {
            assert(parts.deep_view()[0] == parts@[0]@);
            assert(parts.deep_view()[1] == parts@[1]@);
            assert(parts.deep_view()[2] == parts@[2]@);
            assert(parts.deep_view()[3] == parts@[3]@);
            assert(parts.deep_view()[4] == parts@[4]@);
        }
        let mut fields: Vec<String> = Vec::new();
        fields.push(parts[0].clone());
        fields.push(parts[1].clone());
        fields.push(parts[2].clone());
        fields.push(parts[3].clone());
        fields.push(parts[4].clone());
        let ghost sparts = extract_parts_spec(ldv[i as int], starts);
        proof {
            assert(fields@.len() == 5);
            assert(fields.deep_view()[0] == fields@[0]@);
            assert(fields.deep_view()[1] == fields@[1]@);
            assert(fields.deep_view()[2] == fields@[2]@);
            assert(fields.deep_view()[3] == fields@[3]@);
            assert(fields.deep_view()[4] == fields@[4]@);
            assert(fields.deep_view() =~= seq![
                sparts[0],
                sparts[1],
                sparts[2],
                sparts[3],
                sparts[4],
            ]);
        }
        let ghost seen_before = seen.deep_view();
        let bad = is_invalid_or_duplicate(&fields, parts[1].as_str(), parts[4].as_str(), &mut seen);
        if !bad {
            let row_pkg = WingetPackage {
                name: parts[0].clone(),
                id: parts[1].clone(),
                version: parts[2].clone(),
                available: if parts[3].as_str().is_empty() {
                    None
                } else {
                    Some(parts[3].clone())
                },
                source: Some(parts[4].clone()),
            };
            items.push(row_pkg);
            proof {
                let row = (sparts[0], sparts[1], sparts[2], sparts[3], sparts[4]);
                assert(done + (seq![row] + list_rows(ldv.skip(i + 1), starts, seen.deep_view()))
                    =~= done.push(row) + list_rows(ldv.skip(i + 1), starts, seen.deep_view()));
                done = done.push(row);
            }
        }
        i = i + 1;
    }
    proof {
        assert(ldv.skip(n as int) =~= Seq::<Seq<char>>::empty());
        assert(done + Seq::<(Seq<char>, Seq<char>, Seq<char>, Seq<char>, Seq<char>)>::empty()
            =~= done);
    }
    items
}

/// The accepted rows of a search table: name, id, version, the optional
/// keyword column of a five-column table, and the source.
pub open spec fn search_rows(lines: Seq<Seq<char>>, starts: Seq<int>, seen: Seq<Seq<char>>) -> Seq<
    (Seq<char>, Seq<char>, Seq<char>, Option<Seq<char>>, Seq<char>),
>
    decreases lines.len(),
{
    if lines.len() == 0 {
        Seq::empty()
    } else {
        let l = lines[0];
        let rest = lines.skip(1);
        if is_blank(l) || contains_seq(l, "---"@) {
            search_rows(rest, starts, seen)
        } else {
            let parts = extract_parts_spec(l, starts);
            if parts.len() < 4 {
                search_rows(rest, starts, seen)
            } else {
                let five = starts.len() == 5;
                let src = if five {
                    parts[4]
                } else {
                    parts[3]
                };
                let fields = seq![parts[0], parts[1], parts[2], src] + (if five {
                    seq![parts[3]]
                } else {
                    Seq::empty()
                });
                if invalid_or_dup(fields, parts[1], src, seen) {
                    search_rows(rest, starts, seen)
                } else {
                    let row = (
                        parts[0],
                        parts[1],
                        parts[2],
                        if five {
                            Option::<Seq<char>>::Some(parts[3])
                        } else {
                            Option::<Seq<char>>::None
                        },
                        src,
                    );
                    seq![row] + search_rows(rest, starts, seen.push(parts[1]))
                }
            }
        }
    }
}

/// The rows that parsing a search table yields.
pub open spec fn parse_search_spec(out: Seq<char>) -> Seq<
    (Seq<char>, Seq<char>, Seq<char>, Option<Seq<char>>, Seq<char>),
> {
    let lines = lines_of(out);
    let sep = first_sep(lines);
    if sep == -1 {
        Seq::empty()
    } else {
        search_rows(lines.skip(sep + 1), col_starts_of(header_of(lines, sep)), Seq::empty())
    }
}

/// Parses the search table: rows after the separator with at least four
/// columns, a keyword column when the header has five, filtered and
/// deduplicated by id.
pub fn parse_search_text(out: &str) -> (r: Vec<SearchResult>)
    ensures
        r@.len() == parse_search_spec(out@).len(),
        forall|k: int|
            0 <= k < r@.len() ==> {
                let row = parse_search_spec(out@)[k];
                &&& (#[trigger] r@[k]).name@ == row.0
                &&& r@[k].id@ == row.1
                &&& r@[k].version.deep_view() == Option::<Seq<char>>::Some(row.2)
                &&& r@[k].matched.deep_view() == row.3
                &&& r@[k].source.deep_view() == Option::<Seq<char>>::Some(row.4)
            },
{
    let got = match get_col_starts(out) {
        Some(t) => t,
        None => {
            return Vec::new();
        },
    };
    let (col_starts, lines, sep_idx) = got;
    let ghost starts = ints_of(col_starts@);
    let ghost ldv = lines.deep_view();
    let ghost total = parse_search_spec(out@);
    proof {
        assert forall|k: int| 0 <= k < starts.len() implies col_starts@[k]
            == #[trigger] starts[k] by {}
        assert(starts =~= col_starts_of(header_of(ldv, sep_idx as int)));
    }
    let n: usize = lines.len();
    let is_five: bool = col_starts.len() == 5;
    let mut items: Vec<SearchResult> = Vec::new();
    let mut seen: Vec<String> = Vec::new();
    let ghost mut done: Seq<(Seq<char>, Seq<char>, Seq<char>, Option<Seq<char>>, Seq<char>)> =
        Seq::empty();
    let mut i: usize = sep_idx + 1;
    proof {
        assert(seen.deep_view() =~= Seq::<Seq<char>>::empty());
        assert(Seq::<(Seq<char>, Seq<char>, Seq<char>, Option<Seq<char>>, Seq<char>)>::empty()
            + search_rows(ldv.skip(sep_idx + 1), starts, seen.deep_view()) =~= search_rows(
            ldv.skip(sep_idx + 1),
            starts,
            seen.deep_view(),
        ));
    }
    while i < n
        invariant
            sep_idx + 1 <= i <= n,
            n == lines@.len(),
            ldv == lines.deep_view(),
            starts == ints_of(col_starts@),
            total == parse_search_spec(out@),
            is_five == (starts.len() == 5),
            done + search_rows(ldv.skip(i as int), starts, seen.deep_view()) == total,
            items@.len() == done.len(),
            forall|k: int|
                0 <= k < items@.len() ==> {
                    let row = done[k];
                    &&& (#[trigger] items@[k]).name@ == row.0
                    &&& items@[k].id@ == row.1
                    &&& items@[k].version.deep_view() == Option::<Seq<char>>::Some(row.2)
                    &&& items@[k].matched.deep_view() == row.3
                    &&& items@[k].source.deep_view() == Option::<Seq<char>>::Some(row.4)
                },
        decreases n - i,
    {
        proof {
            assert(ldv.skip(i as int).skip(1) =~= ldv.skip(i + 1));
            assert(ldv.skip(i as int)[0] == ldv[i as int]);
            assert(ldv[i as int] == lines@[i as int]@);
        }
        let line = &lines[i];
        if str_is_blank(line.as_str()) || contains_str(line.as_str(), "---") {
            proof {
                assert(search_rows(ldv.skip(i as int), starts, seen.deep_view()) == search_rows(
                    ldv.skip(i + 1),
                    starts,
                    seen.deep_view(),
                ));
            }
            i = i + 1;
            continue;
        }
        let parts = extract_parts(line.as_str(), &col_starts);
        if parts.len() < 4 {
            proof {
                assert(extract_parts_spec(ldv[i as int], starts).len() == parts@.len());
                assert(search_rows(ldv.skip(i as int), starts, seen.deep_view()) == search_rows(
                    ldv.skip(i + 1),
                    starts,
                    seen.deep_view(),
                ));
            }
            i = i + 1;
            continue;
        }
        let src_idx: usize = if is_five {
            4
        } else {
            3
        };
        proof {
            assert(parts.deep_view()[0] == parts@[0]@);
            assert(parts.deep_view()[1] == parts@[1]@);
            assert(parts.deep_view()[2] == parts@[2]@);
            assert(parts.deep_view()[3] == parts@[3]@);
            if is_five {
                assert(parts.deep_view()[4] == parts@[4]@);
            }
        }
        let mut fields: Vec<String> = Vec::new();
        fields.push(parts[0].clone());
        fields.push(parts[1].clone());
        fields.push(parts[2].clone());
        fields.push(parts[src_idx].clone());
        if is_five {
            fields.push(parts[3].clone());
        }
        let ghost sparts = extract_parts_spec(ldv[i as int], starts);
        let ghost ssrc = if starts.len() == 5 {
            sparts[4]
        } else {
            sparts[3]
        };
        proof {
            if is_five {
                assert(fields@.len() == 5);
                assert(fields.deep_view()[0] == fields@[0]@);
                assert(fields.deep_view()[1] == fields@[1]@);
                assert(fields.deep_view()[2] == fields@[2]@);
                assert(fields.deep_view()[3] == fields@[3]@);
                assert(fields.deep_view()[4] == fields@[4]@);
            } else {
                assert(fields@.len() == 4);
                assert(fields.deep_view()[0] == fields@[0]@);
                assert(fields.deep_view()[1] == fields@[1]@);
                assert(fields.deep_view()[2] == fields@[2]@);
                assert(fields.deep_view()[3] == fields@[3]@);
            }
            assert(fields.deep_view() =~= seq![sparts[0], sparts[1], sparts[2], ssrc] + (
            if starts.len() == 5 {
                seq![sparts[3]]
            } else {
                Seq::<Seq<char>>::empty()
            }));
        }
        let bad = is_invalid_or_duplicate(
            &fields,
            parts[1].as_str(),
            parts[src_idx].as_str(),
            &mut seen,
        );
        if !bad {
            let matched: Option<String> = if is_five {
                Some(parts[3].clone())
            } else {
                None
            };
            let entry = SearchResult {
                name: parts[0].clone(),
                id: parts[1].clone(),
                version: Some(parts[2].clone()),
                matched,
                source: Some(parts[src_idx].clone()),
            };
            items.push(entry);
            proof {
                let row = (
                    sparts[0],
                    sparts[1],
                    sparts[2],
                    if starts.len() == 5 {
                        Option::<Seq<char>>::Some(sparts[3])
                    } else {
                        Option::<Seq<char>>::None
                    },
                    ssrc,
                );
                assert(done + (seq![row] + search_rows(ldv.skip(i + 1), starts, seen.deep_view()))
                    =~= done.push(row) + search_rows(ldv.skip(i + 1), starts, seen.deep_view()));
                done = done.push(row);
            }
        }
        i = i + 1;
    }
    proof {
        assert(ldv.skip(n as int) =~= Seq::<Seq<char>>::empty());
        assert(done + Seq::<
            (Seq<char>, Seq<char>, Seq<char>, Option<Seq<char>>, Seq<char>),
        >::empty() =~= done);
    }
    items
}

} // verus!
