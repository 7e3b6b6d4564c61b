//! Pure compute parts of the query operations: the settings-export flag
//! check, the argument list of a detail query, and the parsers for the
//! source and feature tables.

use crate::models::{FeatureEntry, SourceEntry};
use crate::strutil::{
    contains_seq, contains_str, find_sub, find_sub_chars, is_blank, join_with,
    lemma_rfind_at, lemma_rfind_none, lines_of, rfind_char, rfind_in, split_lines, split_ws,
    split_whitespace_vec, starts_with_chars, starts_with_seq, str_is_blank, str_to_chars,
    trim_chars, trim_spec, chars_to_string,
};
use vstd::prelude::*;
use vstd::string::StrSliceExecFns;

verus! {

/// Copies a contiguous part of a character vector.
pub fn subrange_chars(v: &Vec<char>, a: usize, b: usize) -> (r: Vec<char>)
    requires
        a <= b <= v@.len(),
    ensures
        r@ == v@.subrange(a as int, b as int),
{
    let mut out: Vec<char> = Vec::new();
    let mut i: usize = a;
    while i < b
        invariant
            a <= i <= b <= v@.len(),
            out@ == v@.subrange(a as int, i as int),
        decreases b - i,
    {
        out.push(v[i]);
        proof {
            assert(v@.subrange(a as int, i as int).push(v@[i as int]) =~= v@.subrange(
                a as int,
                i + 1,
            ));
        }
        i = i + 1;
    }
    out
}

/// Whether an exported settings text enables the named boolean option:
/// inside the outermost braces, after the first quoted occurrence of the
/// key, the first colon is followed (after whitespace) by `true`.
pub open spec fn settings_flag_spec(out: Seq<char>, key: Seq<char>) -> bool {
    let a = find_sub(out, seq!['{']);
    let b = rfind_in(out, '}');
    if a == -1 || b == -1 || b < a {
        false
    } else {
        let json = out.subrange(a, b + 1);
        let quoted = seq!['"'] + key + seq!['"'];
        let p = find_sub(json, quoted);
        if p == -1 {
            false
        } else {
            let rest = json.skip(p);
            let q = find_sub(rest, seq![':']);
            if q == -1 {
                false
            } else {
                let val = trim_spec(rest.skip(q + 1));
                starts_with_seq(val, seq!['t', 'r', 'u', 'e'])
            }
        }
    }
}

/// Checks whether an exported settings text enables the named boolean
/// option.  Text in which the last closing brace precedes the first
/// opening brace carries no such option and reports `false`.
pub fn settings_flag_enabled(out: &str, key: &str) -> (r: bool)
    ensures
        r == settings_flag_spec(out@, key@),
{
    let chars = str_to_chars(out);
    let mut open_brace: Vec<char> = Vec::new();
    open_brace.push('{');
    proof {
        assert(open_brace@ =~= seq!['{']);
    }
    let a = match find_sub_chars(&chars, &open_brace) {
        Some(a) => a,
        None => {
            return false;
        },
    };
    let b = match rfind_char(&chars, '}') {
        Some(b) => {
            proof {
                lemma_rfind_at(out@, '}', b as int);
            }
            b
        },
        None => {
            proof {
                lemma_rfind_none(out@, '}');
            }
            return false;
        },
    };
    if b < a {
        return false;
    }
    let cn: usize = chars.len();
    let json = subrange_chars(&chars, a, b + 1);
    let key_chars = str_to_chars(key);
    let mut quoted: Vec<char> = Vec::new();
    quoted.push('"');
    let mut ki: usize = 0;
    while ki < key_chars.len()
        invariant
            ki <= key_chars@.len(),
            key_chars@ == key@,
            quoted@ == seq!['"'] + key@.subrange(0, ki as int),
        decreases key_chars@.len() - ki,
    {
        quoted.push(key_chars[ki]);
        proof {
            assert((seq!['"'] + key@.subrange(0, ki as int)).push(key@[ki as int]) =~= seq!['"']
                + key@.subrange(0, ki + 1));
        }
        ki = ki + 1;
    }
    quoted.push('"');
    proof {
        assert(key@.subrange(0, key@.len() as int) =~= key@);
        assert(quoted@ =~= seq!['"'] + key@ + seq!['"']);
    }
    let p = match find_sub_chars(&json, &quoted) {
        Some(p) => p,
        None => {
            return false;
        },
    };
    let rest = subrange_chars(&json, p, json.len());
    proof {
        assert(rest@ =~= json@.skip(p as int));
    }
    let mut colon: Vec<char> = Vec::new();
    colon.push(':');
    proof {
        assert(colon@ =~= seq![':']);
    }
    let q = match find_sub_chars(&rest, &colon) {
        Some(q) => q,
        None => {
            return false;
        },
    };
    let tail = subrange_chars(&rest, q + 1, rest.len());
    proof {
        assert(tail@ =~= rest@.skip(q + 1));
    }
    let val = trim_chars(&tail);
    let mut needle: Vec<char> = Vec::new();
    needle.push('t');
    needle.push('r');
    needle.push('u');
    needle.push('e');
    proof {
        assert(needle@ =~= seq!['t', 'r', 'u', 'e']);
    }
    starts_with_chars(&val, &needle)
}

/// True iff the text ends with a truncation ellipsis.
pub open spec fn is_truncated_spec(s: Seq<char>) -> bool {
    s.len() > 0 && s.last() == '…'
}

/// True iff the text ends with a truncation ellipsis, the tool's sign
/// that a column was cut short.
pub fn is_truncated(s: &str) -> (r: bool)
    ensures
        r == is_truncated_spec(s@),
{
    let n: usize = s.unicode_len();
    if n == 0 {
        return false;
    }
    s.get_char(n - 1) == '…'
}

/// The text with every trailing occurrence of one character removed.
pub open spec fn strip_trailing_char(s: Seq<char>, c: char) -> Seq<char>
    decreases s.len(),
{
    if s.len() > 0 && s.last() == c {
        strip_trailing_char(s.drop_last(), c)
    } else {
        s
    }
}

/// The text with every trailing three-dot run removed.
pub open spec fn strip_trailing_dots(s: Seq<char>) -> Seq<char>
    decreases s.len(),
{
    if s.len() >= 3 && s.subrange(s.len() - 3, s.len() as int) == seq!['.', '.', '.'] {
        strip_trailing_dots(s.take(s.len() - 3))
    } else {
        s
    }
}

/// The id actually queried for a truncated row: trailing ellipses and
/// three-dot runs removed, then trimmed.
pub open spec fn show_id_spec(id: Seq<char>) -> Seq<char> {
    trim_spec(strip_trailing_dots(strip_trailing_char(id, '…')))
}

/// Computes [`show_id_spec`].
pub fn show_target_id(id: &str) -> (r: String)
    ensures
        r@ == show_id_spec(id@),
{
    let chars = str_to_chars(id);
    let n: usize = chars.len();
    let mut e: usize = n;
    proof {
        assert(id@.subrange(0, n as int) =~= id@);
    }
    while e > 0 && chars[e - 1] == '…'
        invariant
            e <= n,
            n == id@.len(),
            chars@ == id@,
            strip_trailing_char(id@, '…') == strip_trailing_char(id@.subrange(0, e as int), '…'),
        decreases e,
    {
        proof {
            assert(id@.subrange(0, e as int).last() == id@[e - 1]);
            assert(id@.subrange(0, e as int).drop_last() =~= id@.subrange(0, e - 1));
        }
        e = e - 1;
    }
    proof {
        if e > 0 {
            assert(id@.subrange(0, e as int).last() == id@[e - 1]);
        }
        assert(strip_trailing_char(id@.subrange(0, e as int), '…') == id@.subrange(0, e as int));
    }
    let ghost t1 = id@.subrange(0, e as int);
    let mut e2: usize = e;
    while e2 >= 3 && chars[e2 - 1] == '.' && chars[e2 - 2] == '.' && chars[e2 - 3] == '.'
        invariant
            e2 <= e <= n,
            n == id@.len(),
            chars@ == id@,
            t1 == id@.subrange(0, e as int),
            strip_trailing_dots(t1) == strip_trailing_dots(id@.subrange(0, e2 as int)),
        decreases e2,
    {
        proof {
            let sub = id@.subrange(0, e2 as int);
            assert(sub.subrange(sub.len() - 3, sub.len() as int) =~= seq!['.', '.', '.']);
            assert(sub.take(sub.len() - 3) =~= id@.subrange(0, e2 - 3));
        }
        e2 = e2 - 3;
    }
    proof {
        let sub = id@.subrange(0, e2 as int);
        if sub.len() >= 3 && sub.subrange(sub.len() - 3, sub.len() as int) == seq!['.', '.', '.'] {
            assert(sub[sub.len() - 1] == '.');
            assert(sub[sub.len() - 2] == '.');
            assert(sub[sub.len() - 3] == '.');
            assert(sub.subrange(sub.len() - 3, sub.len() as int)[0] == sub[sub.len() - 3]);
            assert(sub.subrange(sub.len() - 3, sub.len() as int)[1] == sub[sub.len() - 2]);
            assert(sub.subrange(sub.len() - 3, sub.len() as int)[2] == sub[sub.len() - 1]);
            assert(false);
        }
        assert(strip_trailing_dots(sub) == sub);
    }
    let stripped = subrange_chars(&chars, 0, e2);
    let trimmed = trim_chars(&stripped);
    chars_to_string(&trimmed)
}

/// The argument list of one detail query: a truncated id is stripped of
/// its ellipsis and queried loosely, an intact id exactly; an explicit
/// proxy is passed through.
pub open spec fn show_args_spec(id: Seq<char>, proxy: Option<String>) -> Seq<Seq<char>> {
    let base = if is_truncated_spec(id) {
        seq!["show"@, "--id"@, show_id_spec(id)]
    } else {
        seq!["show"@, "--id"@, id, "--exact"@]
    };
    let with_agree = base + seq!["--accept-source-agreements"@];
    match proxy {
        Some(p) => with_agree + seq!["--proxy"@, p@],
        None => with_agree,
    }
}

/// Builds the argument list of one detail query.
pub fn show_args(id: &str, proxy: &Option<String>) -> (r: Vec<String>)
    ensures
        r.deep_view() == show_args_spec(id@, *proxy),
{
    let mut args: Vec<String> = Vec::new();
    args.push("show".to_owned());
    args.push("--id".to_owned());
    if is_truncated(id) {
        let target = show_target_id(id);
        args.push(target);
    } else {
        args.push(id.to_owned());
        args.push("--exact".to_owned());
    }
    args.push("--accept-source-agreements".to_owned());
    match proxy {
        Some(p) => {
            args.push("--proxy".to_owned());
            args.push(p.clone());
        },
        None => {},
    }
    proof {
        assert(args.deep_view() =~= show_args_spec(id@, *proxy));
    }
    args
}

/// The rows of the source table: after the dashed separator line, every
/// line of exactly three whitespace-separated columns becomes one entry.
pub open spec fn sources_spec(lines: Seq<Seq<char>>, dashes: bool) -> Seq<
    (Seq<char>, Seq<char>, Seq<char>),
>
    decreases lines.len(),
{
    if lines.len() == 0 {
        Seq::empty()
    } else {
        let l = lines[0];
        let rest = lines.skip(1);
        if is_blank(l) {
            sources_spec(rest, dashes)
        } else if !dashes && contains_seq(l, "---"@) {
            sources_spec(rest, true)
        } else if dashes && split_ws(l).len() == 3 {
            seq![(split_ws(l)[0], split_ws(l)[1], split_ws(l)[2])] + sources_spec(rest, dashes)
        } else {
            sources_spec(rest, dashes)
        }
    }
}

/// Parses the source table.
pub fn parse_sources(out: &str) -> (r: Vec<SourceEntry>)
    ensures
        r@.len() == sources_spec(lines_of(out@), false).len(),
        forall|k: int|
            0 <= k < r@.len() ==> {
                let row = sources_spec(lines_of(out@), false)[k];
                (#[trigger] r@[k]).name@ == row.0 && r@[k].arg@ == row.1 && r@[k].explicit@
                    == row.2
            },
{
    let lines = split_lines(out);
    let n: usize = lines.len();
    let mut items: Vec<SourceEntry> = Vec::new();
    let mut dashes: bool = false;
    let ghost total = sources_spec(lines_of(out@), false);
    let ghost mut done: Seq<(Seq<char>, Seq<char>, Seq<char>)> = Seq::empty();
    let mut i: usize = 0;
    proof {
        assert(lines.deep_view().skip(0) =~= lines.deep_view());
        assert(Seq::<(Seq<char>, Seq<char>, Seq<char>)>::empty() + total =~= total);
    }
    while i < n
        invariant
            i <= n,
            n == lines@.len(),
            lines.deep_view() == lines_of(out@),
            done + sources_spec(lines.deep_view().skip(i as int), dashes) == total,
            total == sources_spec(lines_of(out@), false),
            items@.len() == done.len(),
            forall|k: int|
                0 <= k < items@.len() ==> (#[trigger] items@[k]).name@ == done[k].0
                    && items@[k].arg@ == done[k].1 && items@[k].explicit@ == done[k].2,
        decreases n - i,
    {
        let ghost ldv = lines.deep_view();
        proof {
            assert(ldv.skip(i as int).skip(1) =~= ldv.skip(i + 1));
            assert(ldv.skip(i as int)[0] == ldv[i as int]);
            assert(ldv[i as int] == lines@[i as int]@);
        }
        let line = &lines[i];
        if str_is_blank(line.as_str()) {
        } else if !dashes && contains_str(line.as_str(), "---") {
            dashes = true;
        } else if dashes {
            let parts = split_whitespace_vec(line.as_str());
            if parts.len() == 3 {
                proof {
                    assert(parts.deep_view()[0] == parts@[0]@);
                    assert(parts.deep_view()[1] == parts@[1]@);
                    assert(parts.deep_view()[2] == parts@[2]@);
                }
                items.push(
                    SourceEntry {
                        name: parts[0].clone(),
                        arg: parts[1].clone(),
                        explicit: parts[2].clone(),
                    },
                );
                proof {
                    let row = (split_ws(ldv[i as int])[0], split_ws(ldv[i as int])[1], split_ws(
                        ldv[i as int],
                    )[2]);
                    assert(done + (seq![row] + sources_spec(ldv.skip(i + 1), dashes)) =~= done.push(
                        row,
                    ) + sources_spec(ldv.skip(i + 1), dashes));
                    done = done.push(row);
                }
            }
        }
        i = i + 1;
    }
    proof {
        assert(lines.deep_view().skip(n as int) =~= Seq::<Seq<char>>::empty());
        assert(done + Seq::<(Seq<char>, Seq<char>, Seq<char>)>::empty() =~= done);
    }
    items
}

/// The rows of the feature table: after the dashed separator, a line of at
/// least two columns becomes one entry; with three or more columns the
/// last is the property, the one before it the status, and the rest joined
/// by single spaces form the feature name.
pub open spec fn features_spec(lines: Seq<Seq<char>>, dashes: bool) -> Seq<
    (Seq<char>, Seq<char>, Option<Seq<char>>),
>
    decreases lines.len(),
{
    if lines.len() == 0 {
        Seq::empty()
    } else {
        let l = lines[0];
        let rest = lines.skip(1);
        if is_blank(l) {
            features_spec(rest, dashes)
        } else if !dashes && contains_seq(l, "---"@) {
            features_spec(rest, true)
        } else if dashes && split_ws(l).len() >= 2 {
            let p = split_ws(l);
            let row = if p.len() >= 3 {
                (join_with(p.take(p.len() - 2), " "@), p[p.len() - 2], Some(p.last()))
            } else {
                (p[0], p[1], None)
            };
            seq![row] + features_spec(rest, dashes)
        } else {
            features_spec(rest, dashes)
        }
    }
}

fn take_strings(v: &Vec<String>, k: usize) -> (r: Vec<String>)
    requires
        k <= v@.len(),
    ensures
        r.deep_view() == v.deep_view().take(k as int),
{
    let mut out: Vec<String> = Vec::new();
    let mut i: usize = 0;
    while i < k
        invariant
            i <= k <= v@.len(),
            out.deep_view() == v.deep_view().subrange(0, i as int),
        decreases k - i,
    {
        let ghost pre = out;
        out.push(v[i].clone());
        proof {
            crate::strutil::lemma_push_deep_view(&pre, &out, out@.last());
            assert(v.deep_view().subrange(0, i as int).push(v.deep_view()[i as int])
                =~= v.deep_view().subrange(0, i + 1));
            assert(v.deep_view()[i as int] == v@[i as int]@);
        }
        i = i + 1;
    }
    proof {
        assert(v.deep_view().subrange(0, k as int) =~= v.deep_view().take(k as int));
    }
    out
}

/// Parses the feature table.
pub fn parse_features(out: &str) -> (r: Vec<FeatureEntry>)
    ensures
        r@.len() == features_spec(lines_of(out@), false).len(),
        forall|k: int|
            0 <= k < r@.len() ==> {
                let row = features_spec(lines_of(out@), false)[k];
                (#[trigger] r@[k]).feature@ == row.0 && r@[k].status@ == row.1
                    && r@[k].property.deep_view() == row.2 && r@[k].link is None
            },
{
    let lines = split_lines(out);
    let n: usize = lines.len();
    let mut items: Vec<FeatureEntry> = Vec::new();
    let mut dashes: bool = false;
    let ghost total = features_spec(lines_of(out@), false);
    let ghost mut done: Seq<(Seq<char>, Seq<char>, Option<Seq<char>>)> = Seq::empty();
    let mut i: usize = 0;
    proof {
        assert(lines.deep_view().skip(0) =~= lines.deep_view());
        assert(Seq::<(Seq<char>, Seq<char>, Option<Seq<char>>)>::empty() + total =~= total);
    }
    while i < n
        invariant
            i <= n,
            n == lines@.len(),
            lines.deep_view() == lines_of(out@),
            done + features_spec(lines.deep_view().skip(i as int), dashes) == total,
            total == features_spec(lines_of(out@), false),
            items@.len() == done.len(),
            forall|k: int|
                0 <= k < items@.len() ==> (#[trigger] items@[k]).feature@ == done[k].0
                    && items@[k].status@ == done[k].1 && items@[k].property.deep_view()
                    == done[k].2 && items@[k].link is None,
        decreases n - i,
    {
        let ghost ldv = lines.deep_view();
        proof {
            assert(ldv.skip(i as int).skip(1) =~= ldv.skip(i + 1));
            assert(ldv.skip(i as int)[0] == ldv[i as int]);
            assert(ldv[i as int] == lines@[i as int]@);
        }
        let line = &lines[i];
        if str_is_blank(line.as_str()) {
        } else if !dashes && contains_str(line.as_str(), "---") {
            dashes = true;
        } else if dashes {
            let parts = split_whitespace_vec(line.as_str());
            let m: usize = parts.len();
            if m >= 2 {
                let entry: FeatureEntry;
                if m >= 3 {
                    let head = take_strings(&parts, m - 2);
                    let feature = crate::command::join_strings(&head, " ");
                    proof {
                        assert(parts.deep_view()[m - 2] == parts@[m - 2]@);
                        assert(parts.deep_view()[m - 1] == parts@[m - 1]@);
                    }
                    entry = FeatureEntry {
                        feature,
                        status: parts[m - 2].clone(),
                        property: Some(parts[m - 1].clone()),
                        link: None,
                    };
                } else {
                    proof {
                        assert(parts.deep_view()[0] == parts@[0]@);
                        assert(parts.deep_view()[1] == parts@[1]@);
                    }
                    entry = FeatureEntry {
                        feature: parts[0].clone(),
                        status: parts[1].clone(),
                        property: None,
                        link: None,
                    };
                }
                items.push(entry);
                proof {
                    let p = split_ws(ldv[i as int]);
                    let row = if p.len() >= 3 {
                        (join_with(p.take(p.len() - 2), " "@), p[p.len() - 2], Some(p.last()))
                    } else {
                        (p[0], p[1], None)
                    };
                    assert(done + (seq![row] + features_spec(ldv.skip(i + 1), dashes))
                        =~= done.push(row) + features_spec(ldv.skip(i + 1), dashes));
                    done = done.push(row);
                }
            }
        }
        i = i + 1;
    }
    proof {
        assert(lines.deep_view().skip(n as int) =~= Seq::<Seq<char>>::empty());
        assert(done + Seq::<(Seq<char>, Seq<char>, Option<Seq<char>>)>::empty() =~= done);
    }
    items
}

} // verus!
