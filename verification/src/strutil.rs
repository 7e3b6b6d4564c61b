//! Small helpers over strings and character sequences.
//!
//! Everything in this module is verified except for two thin wrappers over
//! `std` string operations that `vstd` gives no specification for, and one
//! named abstraction (`lower_of`) for the result of Unicode lowercasing.

use vstd::prelude::*;
use vstd::string::StrSliceExecFns;

verus! {

/// Relies on `String::push`: appends exactly the given character.
#[verifier::external_body]
pub fn push_char(s: &mut String, c: char)
    ensures
        final(s)@ == old(s)@.push(c),
{
    s.push(c);
}

/// The character sequence that `str::to_lowercase` produces for a given
/// input sequence.  It depends on the input characters alone (the Unicode
/// default case conversion carries no locale or environment dependency),
/// so it can be given a name without a definition.
pub uninterp spec fn lower_of(s: Seq<char>) -> Seq<char>;

/// Relies on `str::to_lowercase`: the result is a pure function of the
/// input characters alone, here named `lower_of`.
#[verifier::external_body]
pub fn to_lower(s: &str) -> (r: String)
    ensures
        r@ == lower_of(s@),
{
    s.to_lowercase()
}

/// Collects the characters of a string slice into a vector.
pub fn str_to_chars(s: &str) -> (r: Vec<char>)
    ensures
        r@ == s@,
{
    let n: usize = s.unicode_len();
    let mut v: Vec<char> = Vec::new();
    let mut i: usize = 0;
    while i < n
        invariant
            i <= n,
            n == s@.len(),
            v@ == s@.subrange(0, i as int),
        decreases n - i,
    {
        let c = s.get_char(i);
        v.push(c);
        proof {
            assert(s@.subrange(0, i as int).push(s@[i as int]) =~= s@.subrange(0, i + 1 as int));
        }
        i = i + 1;
    }
    proof {
        assert(s@.subrange(0, n as int) =~= s@);
    }
    v
}

/// Builds a string from a vector of characters.
pub fn chars_to_string(v: &Vec<char>) -> (r: String)
    ensures
        r@ == v@,
{
    let mut s: String = String::new();
    let mut i: usize = 0;
    while i < v.len()
        invariant
            i <= v@.len(),
            s@ == v@.subrange(0, i as int),
        decreases v@.len() - i,
    {
        push_char(&mut s, v[i]);
        proof {
            assert(v@.subrange(0, i as int).push(v@[i as int]) =~= v@.subrange(0, i + 1 as int));
        }
        i = i + 1;
    }
    proof {
        assert(v@.subrange(0, v@.len() as int) =~= v@);
    }
    s
}

/// True iff the views of the two string slices are equal.
pub fn str_eq(a: &str, b: &str) -> (r: bool)
    ensures
        r == (a@ == b@),
{
    let oa: String = a.to_owned();
    let ob: String = b.to_owned();
    oa == ob
}

/// The Unicode `White_Space` characters, the set that `char::is_whitespace`
/// reports.
pub open spec fn is_ws_char(c: char) -> bool {
    ||| c == ' '
    ||| c == '\t'
    ||| c == '\n'
    ||| c == '\u{b}'
    ||| c == '\u{c}'
    ||| c == '\r'
    ||| c == '\u{85}'
    ||| c == '\u{a0}'
    ||| c == '\u{1680}'
    ||| 0x2000 <= (c as u32) <= 0x200a
    ||| c == '\u{2028}'
    ||| c == '\u{2029}'
    ||| c == '\u{202f}'
    ||| c == '\u{205f}'
    ||| c == '\u{3000}'
}

/// Executable form of [`is_ws_char`].
pub fn whitespace_char(c: char) -> (r: bool)
    ensures
        r == is_ws_char(c),
{
    let v: u32 = c as u32;
    c == ' ' || c == '\t' || c == '\n' || c == '\u{b}' || c == '\u{c}' || c == '\r'
        || c == '\u{85}' || c == '\u{a0}' || c == '\u{1680}' || (0x2000 <= v && v <= 0x200a)
        || c == '\u{2028}' || c == '\u{2029}' || c == '\u{202f}' || c == '\u{205f}'
        || c == '\u{3000}'
}

/// True iff the text is empty or all whitespace, i.e. trimming leaves
/// nothing.
pub open spec fn is_blank(s: Seq<char>) -> bool {
    forall|i: int| 0 <= i < s.len() ==> is_ws_char(#[trigger] s[i])
}

/// Executable form of [`is_blank`].
pub fn str_is_blank(s: &str) -> (r: bool)
    ensures
        r == is_blank(s@),
{
    let n: usize = s.unicode_len();
    let mut i: usize = 0;
    while i < n
        invariant
            i <= n,
            n == s@.len(),
            forall|j: int| 0 <= j < i ==> is_ws_char(#[trigger] s@[j]),
        decreases n - i,
    {
        let c = s.get_char(i);
        if !whitespace_char(c) {
            return false;
        }
        i = i + 1;
    }
    true
}

/// The text with leading whitespace removed.
pub open spec fn trim_start_spec(s: Seq<char>) -> Seq<char>
    decreases s.len(),
{
    if s.len() > 0 && is_ws_char(s[0]) {
        trim_start_spec(s.skip(1))
    } else {
        s
    }
}

/// The text with trailing whitespace removed.
pub open spec fn trim_end_spec(s: Seq<char>) -> Seq<char>
    decreases s.len(),
{
    if s.len() > 0 && is_ws_char(s.last()) {
        trim_end_spec(s.drop_last())
    } else {
        s
    }
}

/// The text with whitespace removed from both ends, as `str::trim` does.
pub open spec fn trim_spec(s: Seq<char>) -> Seq<char> {
    trim_end_spec(trim_start_spec(s))
}

/// Trims whitespace from both ends of a character vector.
pub fn trim_chars(v: &Vec<char>) -> (r: Vec<char>)
    ensures
        r@ == trim_spec(v@),
{
    let n: usize = v.len();
    let mut start: usize = 0;
    proof {
        assert(v@.skip(0) =~= v@);
    }
    while start < n && whitespace_char(v[start])
        invariant
            start <= n,
            n == v@.len(),
            trim_start_spec(v@) == trim_start_spec(v@.skip(start as int)),
        decreases n - start,
    {
        proof {
            assert(v@.skip(start as int).skip(1) =~= v@.skip(start + 1));
        }
        start = start + 1;
    }
    let ghost t = v@.skip(start as int);
    proof {
        assert(trim_start_spec(v@) == t);
    }
    let mut end: usize = n;
    proof {
        assert(t.subrange(0, (n - start) as int) =~= t);
    }
    while end > start && whitespace_char(v[end - 1])
        invariant
            start <= end <= n,
            n == v@.len(),
            t == v@.skip(start as int),
            trim_end_spec(t) == trim_end_spec(t.subrange(0, end - start as int)),
        decreases end,
    {
        proof {
            let e = end - start as int;
            assert(t.subrange(0, e).last() == v@[end - 1]);
            assert(t.subrange(0, e).drop_last() =~= t.subrange(0, e - 1));
        }
        end = end - 1;
    }
    proof {
        let e = end - start as int;
        if e > 0 {
            assert(t.subrange(0, e).last() == v@[end - 1]);
        }
        assert(trim_end_spec(t.subrange(0, e)) == t.subrange(0, e));
    }
    let mut out: Vec<char> = Vec::new();
    let mut i: usize = start;
    while i < end
        invariant
            start <= i <= end <= n,
            n == v@.len(),
            out@ == v@.subrange(start as int, i as int),
        decreases end - i,
    {
        out.push(v[i]);
        proof {
            assert(v@.subrange(start as int, i as int).push(v@[i as int]) =~= v@.subrange(
                start as int,
                i + 1,
            ));
        }
        i = i + 1;
    }
    proof {
        assert(v@.subrange(start as int, end as int) =~= t.subrange(0, end - start as int));
    }
    out
}

/// Trims whitespace from both ends of a string.
pub fn trim_str(s: &str) -> (r: String)
    ensures
        r@ == trim_spec(s@),
{
    let chars: Vec<char> = str_to_chars(s);
    let trimmed: Vec<char> = trim_chars(&chars);
    chars_to_string(&trimmed)
}

/// Pushing one string onto a vector pushes its view onto the vector's
/// deep view.
pub proof fn lemma_push_deep_view(pre: &Vec<String>, post: &Vec<String>, x: String)
    requires
        post@ == pre@.push(x),
    ensures
        post.deep_view() == pre.deep_view().push(x@),
{
    assert forall|t: int| 0 <= t < post.deep_view().len() implies post.deep_view()[t]
        == pre.deep_view().push(x@)[t] by {
        if t < pre@.len() {
            assert(post@[t] == pre@[t]);
        } else {
            assert(post@[t] == x);
        }
    }
    assert(post.deep_view() =~= pre.deep_view().push(x@));
}

/// The parts joined with a separator between neighbours.
pub open spec fn join_with(parts: Seq<Seq<char>>, sep: Seq<char>) -> Seq<char>
    decreases parts.len(),
{
    if parts.len() == 0 {
        Seq::empty()
    } else if parts.len() == 1 {
        parts[0]
    } else {
        parts[0] + sep + join_with(parts.skip(1), sep)
    }
}

/// Appending one more part extends the join with a separator, unless it
/// is the first part.
pub proof fn lemma_join_with_push(parts: Seq<Seq<char>>, x: Seq<char>, sep: Seq<char>)
    ensures
        join_with(parts.push(x), sep) == if parts.len() == 0 {
            x
        } else {
            join_with(parts, sep) + sep + x
        },
    decreases parts.len(),
{
    if parts.len() == 0 {
        assert(parts.push(x).len() == 1);
        assert(parts.push(x)[0] == x);
    } else if parts.len() == 1 {
        assert(parts.push(x).skip(1) =~= seq![x]);
        assert(join_with(seq![x], sep) == seq![x][0]);
        assert(parts.push(x)[0] == parts[0]);
        assert(join_with(parts.push(x), sep) == parts.push(x)[0] + sep + join_with(
            parts.push(x).skip(1),
            sep,
        ));
        assert(join_with(parts, sep) == parts[0]);
    } else {
        assert(parts.push(x).skip(1) =~= parts.skip(1).push(x));
        lemma_join_with_push(parts.skip(1), x, sep);
        assert(parts.push(x)[0] == parts[0]);
        assert(join_with(parts.push(x), sep) == parts.push(x)[0] + sep + join_with(
            parts.push(x).skip(1),
            sep,
        ));
        assert(parts[0] + sep + (join_with(parts.skip(1), sep) + sep + x) =~= (parts[0] + sep
            + join_with(parts.skip(1), sep)) + sep + x);
    }
}

/// True iff `n` occurs as a contiguous run inside `h` (at any position;
/// the empty sequence occurs everywhere).
pub open spec fn contains_seq(h: Seq<char>, n: Seq<char>) -> bool {
    exists|k: int| 0 <= k && k + n.len() <= h.len() && #[trigger] h.subrange(k, k + n.len()) == n
}

/// True iff `n` is a prefix of `h`.
pub open spec fn starts_with_seq(h: Seq<char>, n: Seq<char>) -> bool {
    n.len() <= h.len() && h.subrange(0, n.len() as int) == n
}

fn match_at(hay: &Vec<char>, needle: &Vec<char>, k: usize) -> (r: bool)
    requires
        k + needle@.len() <= hay@.len(),
    ensures
        r == (hay@.subrange(k as int, k + needle@.len()) == needle@),
{
    let h: usize = hay.len();
    let n: usize = needle.len();
    let mut j: usize = 0;
    while j < n
        invariant
            j <= n,
            h == hay@.len(),
            n == needle@.len(),
            k + n <= h,
            forall|t: int| 0 <= t < j ==> #[trigger] hay@[k + t] == needle@[t],
        decreases n - j,
    {
        if hay[k + j] != needle[j] {
            proof {
                assert(hay@.subrange(k as int, k + needle@.len())[j as int] == hay@[k + j]);
            }
            return false;
        }
        j = j + 1;
    }
    proof {
        assert forall|t: int| 0 <= t < needle@.len() implies hay@.subrange(
            k as int,
            k + needle@.len(),
        )[t] == needle@[t] by {
            assert(hay@[k + t] == needle@[t]);
        }
        assert(hay@.subrange(k as int, k + needle@.len()) =~= needle@);
    }
    true
}

/// Substring search over character vectors.
pub fn contains_chars(hay: &Vec<char>, needle: &Vec<char>) -> (r: bool)
    ensures
        r == contains_seq(hay@, needle@),
{
    let h: usize = hay.len();
    let n: usize = needle.len();
    if n > h {
        proof {
            assert(!contains_seq(hay@, needle@)) by {
                if contains_seq(hay@, needle@) {
                    let k = choose|k: int|
                        0 <= k && k + needle@.len() <= hay@.len() && #[trigger] hay@.subrange(
                            k,
                            k + needle@.len(),
                        ) == needle@;
                    assert(k + needle@.len() <= hay@.len());
                }
            }
        }
        return false;
    }
    if n == 0 {
        proof {
            assert(hay@.subrange(0int, 0int + needle@.len()) =~= needle@);
        }
        return true;
    }
    let mut k: usize = 0;
    while k <= h - n
        invariant
            1 <= n <= h,
            h == hay@.len(),
            n == needle@.len(),
            k <= h - n + 1,
            forall|t: int|
                0 <= t < k ==> #[trigger] hay@.subrange(t, t + needle@.len()) != needle@,
        decreases h + 1 - k,
    {
        if match_at(hay, needle, k) {
            return true;
        }
        k = k + 1;
    }
    proof {
        assert(!contains_seq(hay@, needle@)) by {
            if contains_seq(hay@, needle@) {
                let t = choose|t: int|
                    0 <= t && t + needle@.len() <= hay@.len() && #[trigger] hay@.subrange(
                        t,
                        t + needle@.len(),
                    ) == needle@;
                assert(t < k);
            }
        }
    }
    false
}

/// Substring search over strings.
pub fn contains_str(hay: &str, needle: &str) -> (r: bool)
    ensures
        r == contains_seq(hay@, needle@),
{
    let hv = str_to_chars(hay);
    let nv = str_to_chars(needle);
    contains_chars(&hv, &nv)
}

/// Prefix test over character vectors.
pub fn starts_with_chars(hay: &Vec<char>, needle: &Vec<char>) -> (r: bool)
    ensures
        r == starts_with_seq(hay@, needle@),
{
    if needle.len() > hay.len() {
        return false;
    }
    match_at(hay, needle, 0)
}

/// The position of the first occurrence of a character, scanning forward.
pub fn find_char(v: &Vec<char>, c: char) -> (r: Option<usize>)
    ensures
        r matches Some(i) ==> i < v@.len() && v@[i as int] == c && forall|j: int|
            0 <= j < i ==> #[trigger] v@[j] != c,
        r is None ==> forall|j: int| 0 <= j < v@.len() ==> #[trigger] v@[j] != c,
{
    let n: usize = v.len();
    let mut i: usize = 0;
    while i < n
        invariant
            i <= n,
            n == v@.len(),
            forall|j: int| 0 <= j < i ==> #[trigger] v@[j] != c,
        decreases n - i,
    {
        if v[i] == c {
            return Some(i);
        }
        i = i + 1;
    }
    None
}

/// The position of the last occurrence of a character, scanning backward.
pub fn rfind_char(v: &Vec<char>, c: char) -> (r: Option<usize>)
    ensures
        r matches Some(i) ==> i < v@.len() && v@[i as int] == c && forall|j: int|
            i < j < v@.len() ==> #[trigger] v@[j] != c,
        r is None ==> forall|j: int| 0 <= j < v@.len() ==> #[trigger] v@[j] != c,
{
    let n: usize = v.len();
    let mut i: usize = n;
    while i > 0
        invariant
            i <= n,
            n == v@.len(),
            forall|j: int| i <= j < n ==> #[trigger] v@[j] != c,
        decreases i,
    {
        i = i - 1;
        if v[i] == c {
            return Some(i);
        }
    }
    None
}

/// A committed line with one trailing carriage return removed, as the
/// standard line iterator does for a `\r\n` ending.
pub open spec fn chop_cr(l: Seq<char>) -> Seq<char> {
    if l.len() > 0 && l.last() == '\r' {
        l.drop_last()
    } else {
        l
    }
}

/// One pass of line splitting: a line feed commits the pending line with
/// one trailing carriage return removed; a final non-empty pending line is
/// committed as it stands; a trailing line feed leaves no empty segment.
pub open spec fn lines_acc(s: Seq<char>, cur: Seq<char>, acc: Seq<Seq<char>>) -> Seq<Seq<char>>
    decreases s.len(),
{
    if s.len() == 0 {
        if cur.len() > 0 {
            acc.push(cur)
        } else {
            acc
        }
    } else if s[0] == '\n' {
        lines_acc(s.skip(1), Seq::empty(), acc.push(chop_cr(cur)))
    } else {
        lines_acc(s.skip(1), cur.push(s[0]), acc)
    }
}

/// The lines of a text.
pub open spec fn lines_of(s: Seq<char>) -> Seq<Seq<char>> {
    lines_acc(s, Seq::empty(), Seq::empty())
}

/// Splits a text into its lines.
pub fn split_lines(s: &str) -> (r: Vec<String>)
    ensures
        r.deep_view() == lines_of(s@),
{
    let chars = str_to_chars(s);
    let n: usize = chars.len();
    let mut lines: Vec<String> = Vec::new();
    let mut cur: Vec<char> = Vec::new();
    let mut i: usize = 0;
    proof {
        assert(s@.skip(0) =~= s@);
        assert(lines.deep_view() =~= Seq::<Seq<char>>::empty());
    }
    while i < n
        invariant
            i <= n,
            n == s@.len(),
            chars@ == s@,
            lines_acc(s@.skip(i as int), cur@, lines.deep_view()) == lines_of(s@),
        decreases n - i,
    {
        let c = chars[i];
        proof {
            assert(s@.skip(i as int).skip(1) =~= s@.skip(i + 1));
        }
        if c == '\n' {
            let ghost cur0 = cur@;
            let mut t = cur;
            if t.len() > 0 && t[t.len() - 1] == '\r' {
                t.pop();
            }
            proof {
                assert(t@ == chop_cr(cur0));
            }
            let line = chars_to_string(&t);
            let ghost pre = lines;
            lines.push(line);
            proof {
                lemma_push_deep_view(&pre, &lines, lines@.last());
                assert(lines.deep_view() == pre.deep_view().push(chop_cr(cur0)));
            }
            cur = Vec::new();
        } else {
            cur.push(c);
        }
        i = i + 1;
    }
    proof {
        assert(s@.skip(n as int) =~= Seq::<char>::empty());
    }
    if cur.len() > 0 {
        let line = chars_to_string(&cur);
        let ghost pre = lines;
        let ghost cur0 = cur@;
        lines.push(line);
        proof {
            lemma_push_deep_view(&pre, &lines, lines@.last());
            assert(lines.deep_view() == pre.deep_view().push(cur0));
        }
    }
    lines
}

/// One pass of whitespace splitting: maximal non-whitespace runs become
/// the parts, as the standard whitespace splitter yields them.
pub open spec fn split_ws_acc(s: Seq<char>, cur: Seq<char>, acc: Seq<Seq<char>>) -> Seq<Seq<char>>
    decreases s.len(),
{
    if s.len() == 0 {
        if cur.len() > 0 {
            acc.push(cur)
        } else {
            acc
        }
    } else if is_ws_char(s[0]) {
        split_ws_acc(
            s.skip(1),
            Seq::empty(),
            if cur.len() > 0 {
                acc.push(cur)
            } else {
                acc
            },
        )
    } else {
        split_ws_acc(s.skip(1), cur.push(s[0]), acc)
    }
}

/// The whitespace-separated parts of a text.
pub open spec fn split_ws(s: Seq<char>) -> Seq<Seq<char>> {
    split_ws_acc(s, Seq::empty(), Seq::empty())
}

/// Splits a text on whitespace runs.
pub fn split_whitespace_vec(s: &str) -> (r: Vec<String>)
    ensures
        r.deep_view() == split_ws(s@),
{
    let chars = str_to_chars(s);
    let n: usize = chars.len();
    let mut parts: Vec<String> = Vec::new();
    let mut cur: Vec<char> = Vec::new();
    let mut i: usize = 0;
    proof {
        assert(s@.skip(0) =~= s@);
        assert(parts.deep_view() =~= Seq::<Seq<char>>::empty());
    }
    while i < n
        invariant
            i <= n,
            n == s@.len(),
            chars@ == s@,
            split_ws_acc(s@.skip(i as int), cur@, parts.deep_view()) == split_ws(s@),
        decreases n - i,
    {
        let c = chars[i];
        proof {
            assert(s@.skip(i as int).skip(1) =~= s@.skip(i + 1));
        }
        if whitespace_char(c) {
            if cur.len() > 0 {
                let part = chars_to_string(&cur);
                let ghost pre = parts;
                let ghost cur0 = cur@;
                parts.push(part);
                proof {
                    lemma_push_deep_view(&pre, &parts, parts@.last());
                    assert(parts.deep_view() == pre.deep_view().push(cur0));
                }
                cur = Vec::new();
            } else {
                proof {
                    assert(cur@ =~= Seq::<char>::empty());
                }
            }
        } else {
            cur.push(c);
        }
        i = i + 1;
    }
    proof {
        assert(s@.skip(n as int) =~= Seq::<char>::empty());
    }
    if cur.len() > 0 {
        let part = chars_to_string(&cur);
        let ghost pre = parts;
        let ghost cur0 = cur@;
        parts.push(part);
        proof {
            lemma_push_deep_view(&pre, &parts, parts@.last());
            assert(parts.deep_view() == pre.deep_view().push(cur0));
        }
    }
    parts
}

/// The position of the first occurrence of `n` inside `h`, or `-1`.
pub open spec fn find_sub(h: Seq<char>, n: Seq<char>) -> int
    decreases h.len(),
{
    if n.len() > h.len() {
        -1
    } else if h.subrange(0, n.len() as int) == n {
        0
    } else if h.len() == 0 {
        -1
    } else {
        let r = find_sub(h.skip(1), n);
        if r == -1 {
            -1
        } else {
            1 + r
        }
    }
}

/// A first match at `k` fixes the value of [`find_sub`].
pub proof fn lemma_find_sub_at(h: Seq<char>, n: Seq<char>, k: int)
    requires
        0 <= k,
        k + n.len() <= h.len(),
        h.subrange(k, k + n.len()) == n,
        forall|t: int| 0 <= t < k ==> #[trigger] h.subrange(t, t + n.len()) != n,
    ensures
        find_sub(h, n) == k,
    decreases k,
{
    if k == 0 {
    } else {
        assert(h.subrange(0int, 0int + n.len()) != n);
        assert(h.subrange(0, n.len() as int) != n);
        assert(h.len() > 0);
        assert(h.skip(1).subrange(k - 1, k - 1 + n.len()) =~= h.subrange(k, k + n.len()));
        assert forall|t: int| 0 <= t < k - 1 implies #[trigger] h.skip(1).subrange(
            t,
            t + n.len(),
        ) != n by {
            assert(h.skip(1).subrange(t, t + n.len()) =~= h.subrange(t + 1, t + 1 + n.len()));
        }
        lemma_find_sub_at(h.skip(1), n, k - 1);
    }
}

/// No match anywhere fixes [`find_sub`] at `-1`.
pub proof fn lemma_find_sub_none(h: Seq<char>, n: Seq<char>)
    requires
        forall|t: int| 0 <= t && t + n.len() <= h.len() ==> #[trigger] h.subrange(t, t + n.len())
            != n,
    ensures
        find_sub(h, n) == -1,
    decreases h.len(),
{
    if n.len() > h.len() {
    } else {
        assert(h.subrange(0int, 0int + n.len()) != n);
        assert(h.subrange(0, n.len() as int) != n);
        if h.len() == 0 {
        } else {
            assert forall|t: int| 0 <= t && t + n.len() <= h.skip(1).len() implies #[trigger] h.skip(
                1,
            ).subrange(t, t + n.len()) != n by {
                assert(h.skip(1).subrange(t, t + n.len()) =~= h.subrange(t + 1, t + 1 + n.len()));
            }
            lemma_find_sub_none(h.skip(1), n);
        }
    }
}

/// The position of the first occurrence of `needle` inside `hay`.
pub fn find_sub_chars(hay: &Vec<char>, needle: &Vec<char>) -> (r: Option<usize>)
    ensures
        r matches Some(k) ==> find_sub(hay@, needle@) == k && k + needle@.len() <= hay@.len(),
        r is None ==> find_sub(hay@, needle@) == -1,
{
    let h: usize = hay.len();
    let n: usize = needle.len();
    if n > h {
        proof {
            lemma_find_sub_none(hay@, needle@);
        }
        return None;
    }
    if n == 0 {
        proof {
            assert(hay@.subrange(0int, 0int + needle@.len()) =~= needle@);
            lemma_find_sub_at(hay@, needle@, 0);
        }
        return Some(0);
    }
    let mut k: usize = 0;
    while k <= h - n
        invariant
            1 <= n <= h,
            h == hay@.len(),
            n == needle@.len(),
            k <= h - n + 1,
            forall|t: int|
                0 <= t < k ==> #[trigger] hay@.subrange(t, t + needle@.len()) != needle@,
        decreases h + 1 - k,
    {
        if match_at(hay, needle, k) {
            proof {
                lemma_find_sub_at(hay@, needle@, k as int);
            }
            return Some(k);
        }
        k = k + 1;
    }
    proof {
        assert forall|t: int| 0 <= t && t + needle@.len() <= hay@.len() implies #[trigger] hay@.subrange(
            t,
            t + needle@.len(),
        ) != needle@ by {
            assert(t < k);
        }
        lemma_find_sub_none(hay@, needle@);
    }
    None
}

/// The position of the last occurrence of `c` inside `s`, or `-1`.
pub open spec fn rfind_in(s: Seq<char>, c: char) -> int
    decreases s.len(),
{
    if s.len() == 0 {
        -1
    } else if s.last() == c {
        s.len() - 1
    } else {
        rfind_in(s.drop_last(), c)
    }
}

/// A last occurrence at `i` fixes the value of [`rfind_in`].
pub proof fn lemma_rfind_at(s: Seq<char>, c: char, i: int)
    requires
        0 <= i < s.len(),
        s[i] == c,
        forall|j: int| i < j < s.len() ==> #[trigger] s[j] != c,
    ensures
        rfind_in(s, c) == i,
    decreases s.len(),
{
    if i == s.len() - 1 {
    } else {
        assert(s.last() != c);
        assert(s.drop_last()[i] == s[i]);
        assert forall|j: int| i < j < s.drop_last().len() implies #[trigger] s.drop_last()[j]
            != c by {
            assert(s.drop_last()[j] == s[j]);
        }
        lemma_rfind_at(s.drop_last(), c, i);
    }
}

/// No occurrence anywhere fixes [`rfind_in`] at `-1`.
pub proof fn lemma_rfind_none(s: Seq<char>, c: char)
    requires
        forall|j: int| 0 <= j < s.len() ==> #[trigger] s[j] != c,
    ensures
        rfind_in(s, c) == -1,
    decreases s.len(),
{
    if s.len() > 0 {
        assert forall|j: int| 0 <= j < s.drop_last().len() implies #[trigger] s.drop_last()[j]
            != c by {
            assert(s.drop_last()[j] == s[j]);
        }
        lemma_rfind_none(s.drop_last(), c);
    }
}

} // verus!
