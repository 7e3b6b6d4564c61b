//! The output normalizer: two composable pure transforms applied to captured
//! console text before any outcome is reported.
//!
//! * ANSI escape stripping removes control sequences of the form
//!   `ESC [ <parameter bytes> <terminator>`.
//! * Carriage-return collapsing models progress-bar overwrites: a carriage
//!   return discards the line built so far, a line feed commits it, and the
//!   committed lines are rejoined with line feeds.

use crate::strutil::{push_char, str_to_chars};
use vstd::prelude::*;

verus! {

/// A byte in `0x40..=0x7E` ends a control sequence.  The comparison mirrors
/// a byte-level check, so only the low eight bits of the character count.
pub open spec fn is_csi_terminator(c: char) -> bool {
    0x40 <= (c as u32) % 256 <= 0x7E
}

/// Executable form of [`is_csi_terminator`].
pub fn csi_terminator(c: char) -> (r: bool)
    ensures
        r == is_csi_terminator(c),
{
    let v: u32 = c as u32;
    let b: u32 = v % 256;
    0x40 <= b && b <= 0x7E
}

/// The text with every `ESC [ ... <terminator>` sequence removed.  A lone
/// escape character that does not open such a sequence passes through.
pub open spec fn strip_ansi_spec(s: Seq<char>) -> Seq<char>
    decreases s.len(),
{
    if s.len() == 0 {
        Seq::empty()
    } else if s[0] == '\u{1b}' && s.len() >= 2 && s[1] == '[' {
        strip_csi_rest(s.skip(2))
    } else {
        seq![s[0]] + strip_ansi_spec(s.skip(1))
    }
}

/// Discards parameter bytes up to and including the first terminator, then
/// resumes stripping.  An unterminated sequence swallows the rest.
pub open spec fn strip_csi_rest(s: Seq<char>) -> Seq<char>
    decreases s.len(),
{
    if s.len() == 0 {
        Seq::empty()
    } else if is_csi_terminator(s[0]) {
        strip_ansi_spec(s.skip(1))
    } else {
        strip_csi_rest(s.skip(1))
    }
}

/// Removes ANSI escape sequences from a string.
pub fn strip_ansi(s: &str) -> (r: String)
    ensures
        r@ == strip_ansi_spec(s@),
{
    let chars: Vec<char> = str_to_chars(s);
    let n: usize = chars.len();
    let mut out: String = String::new();
    let mut in_csi: bool = false;
    let mut i: usize = 0;
    proof {
        assert(s@.skip(0) =~= s@);
        assert(Seq::<char>::empty() + strip_ansi_spec(s@) =~= strip_ansi_spec(s@));
    }
    while i < n
        invariant
            i <= n,
            n == s@.len(),
            chars@ == s@,
            out@ + (if in_csi {
                strip_csi_rest(s@.skip(i as int))
            } else {
                strip_ansi_spec(s@.skip(i as int))
            }) == strip_ansi_spec(s@),
        decreases n - i,
    {
        let c = chars[i];
        if in_csi {
            proof {
                assert(s@.skip(i as int).skip(1) =~= s@.skip(i + 1));
            }
            if csi_terminator(c) {
                in_csi = false;
            }
            i = i + 1;
        } else if c == '\u{1b}' && i + 1 < n && chars[i + 1] == '[' {
            proof {
                assert(s@.skip(i as int).skip(2) =~= s@.skip(i + 2));
            }
            in_csi = true;
            i = i + 2;
        } else {
            proof {
                assert(s@.skip(i as int).skip(1) =~= s@.skip(i + 1));
                assert(out@ + (seq![s@[i as int]] + strip_ansi_spec(s@.skip(i + 1)))
                    =~= out@.push(s@[i as int]) + strip_ansi_spec(s@.skip(i + 1)));
            }
            push_char(&mut out, c);
            i = i + 1;
        }
    }
    proof {
        assert(s@.skip(n as int) =~= Seq::<char>::empty());
        assert(out@ + Seq::<char>::empty() =~= out@);
    }
    out
}

/// True iff the text contains an escape character immediately followed by
/// `[`, i.e. the opener of a control sequence.
pub open spec fn has_csi_start(s: Seq<char>) -> bool {
    exists|i: int| 0 <= i && i + 1 < s.len() && #[trigger] s[i] == '\u{1b}' && s[i + 1] == '['
}

/// Stripping text that contains no control-sequence opener returns it
/// unchanged.
pub proof fn lemma_strip_ansi_no_escapes(s: Seq<char>)
    requires
        !has_csi_start(s),
    ensures
        strip_ansi_spec(s) == s,
    decreases s.len(),
{
    if s.len() == 0 {
        assert(strip_ansi_spec(s) =~= s);
    } else {
        if s[0] == '\u{1b}' && s.len() >= 2 && s[1] == '[' {
            assert(has_csi_start(s)) by {
                assert(0 <= 0int && 0int + 1 < s.len() && s[0int] == '\u{1b}' && s[0int + 1]
                    == '[');
            }
        }
        assert(!has_csi_start(s.skip(1))) by {
            if has_csi_start(s.skip(1)) {
                let i = choose|i: int|
                    0 <= i && i + 1 < s.skip(1).len() && #[trigger] s.skip(1)[i] == '\u{1b}'
                        && s.skip(1)[i + 1] == '[';
                assert(0 <= i + 1 && i + 2 < s.len() && s[i + 1] == '\u{1b}' && s[i + 2] == '[');
            }
        }
        lemma_strip_ansi_no_escapes(s.skip(1));
        assert(seq![s[0]] + s.skip(1) =~= s);
    }
}

/// Stripping is idempotent wherever the first pass leaves no
/// control-sequence opener behind.  (A pass can manufacture an opener, as
/// in an escape character followed by a stripped sequence followed by `[`,
/// so the proviso cannot be dropped.)
pub proof fn lemma_strip_ansi_idempotent(s: Seq<char>)
    requires
        !has_csi_start(strip_ansi_spec(s)),
    ensures
        strip_ansi_spec(strip_ansi_spec(s)) == strip_ansi_spec(s),
{
    lemma_strip_ansi_no_escapes(strip_ansi_spec(s));
}

/// Replaces every `\r\n` pair with `\n`, scanning left to right.
pub open spec fn replace_crlf(s: Seq<char>) -> Seq<char>
    decreases s.len(),
{
    if s.len() >= 2 && s[0] == '\r' && s[1] == '\n' {
        seq!['\n'] + replace_crlf(s.skip(2))
    } else if s.len() == 0 {
        Seq::empty()
    } else {
        seq![s[0]] + replace_crlf(s.skip(1))
    }
}

/// One pass of carriage-return collapsing: `\r` discards the current line,
/// `\n` commits it, anything else extends it; the final partial line is
/// committed at the end of input.
pub open spec fn collapse_lines(s: Seq<char>, cur: Seq<char>, acc: Seq<Seq<char>>) -> Seq<
    Seq<char>,
>
    decreases s.len(),
{
    if s.len() == 0 {
        acc.push(cur)
    } else if s[0] == '\r' {
        collapse_lines(s.skip(1), Seq::empty(), acc)
    } else if s[0] == '\n' {
        collapse_lines(s.skip(1), Seq::empty(), acc.push(cur))
    } else {
        collapse_lines(s.skip(1), cur.push(s[0]), acc)
    }
}

/// The committed lines rejoined with line feeds.
pub open spec fn join_lines(lines: Seq<Seq<char>>) -> Seq<char>
    decreases lines.len(),
{
    if lines.len() == 0 {
        Seq::empty()
    } else if lines.len() == 1 {
        lines[0]
    } else {
        lines[0] + seq!['\n'] + join_lines(lines.skip(1))
    }
}

/// The full normalization: `\r\n` first becomes `\n`, then bare carriage
/// returns discard the line under construction.
pub open spec fn normalize_spec(s: Seq<char>) -> Seq<char> {
    join_lines(collapse_lines(replace_crlf(s), Seq::empty(), Seq::empty()))
}

/// Appending one more line extends the join with a separator, unless it is
/// the first line.
proof fn lemma_join_push(lines: Seq<Seq<char>>, x: Seq<char>)
    ensures
        join_lines(lines.push(x)) == if lines.len() == 0 {
            x
        } else {
            join_lines(lines) + seq!['\n'] + x
        },
    decreases lines.len(),
{
    if lines.len() == 0 {
        assert(lines.push(x).len() == 1);
        assert(lines.push(x)[0] == x);
    } else if lines.len() == 1 {
        assert(lines.push(x).skip(1) =~= seq![x]);
        assert(join_lines(seq![x]) == seq![x][0]);
        assert(lines.push(x)[0] == lines[0]);
        assert(join_lines(lines.push(x)) == lines.push(x)[0] + seq!['\n'] + join_lines(
            lines.push(x).skip(1),
        ));
        assert(join_lines(lines) == lines[0]);
    } else {
        assert(lines.push(x).skip(1) =~= lines.skip(1).push(x));
        lemma_join_push(lines.skip(1), x);
        assert(lines.push(x)[0] == lines[0]);
        assert(join_lines(lines.push(x)) == lines.push(x)[0] + seq!['\n'] + join_lines(
            lines.push(x).skip(1),
        ));
        assert(lines[0] + seq!['\n'] + (join_lines(lines.skip(1)) + seq!['\n'] + x) =~= (lines[0]
            + seq!['\n'] + join_lines(lines.skip(1))) + seq!['\n'] + x);
    }
}

fn replace_crlf_exec(chars: &Vec<char>) -> (r: Vec<char>)
    ensures
        r@ == replace_crlf(chars@),
{
    let n: usize = chars.len();
    let mut out: Vec<char> = Vec::new();
    let mut i: usize = 0;
    proof {
        assert(chars@.skip(0) =~= chars@);
        assert(Seq::<char>::empty() + replace_crlf(chars@) =~= replace_crlf(chars@));
    }
    while i < n
        invariant
            i <= n,
            n == chars@.len(),
            out@ + replace_crlf(chars@.skip(i as int)) == replace_crlf(chars@),
        decreases n - i,
    {
        let c = chars[i];
        if c == '\r' && i + 1 < n && chars[i + 1] == '\n' {
            proof {
                assert(chars@.skip(i as int).skip(2) =~= chars@.skip(i + 2));
                assert(out@ + (seq!['\n'] + replace_crlf(chars@.skip(i + 2))) =~= out@.push('\n')
                    + replace_crlf(chars@.skip(i + 2)));
            }
            out.push('\n');
            i = i + 2;
        } else {
            proof {
                assert(chars@.skip(i as int).skip(1) =~= chars@.skip(i + 1));
                assert(out@ + (seq![chars@[i as int]] + replace_crlf(chars@.skip(i + 1)))
                    =~= out@.push(chars@[i as int]) + replace_crlf(chars@.skip(i + 1)));
            }
            out.push(c);
            i = i + 1;
        }
    }
    proof {
        assert(chars@.skip(n as int) =~= Seq::<char>::empty());
        assert(out@ + replace_crlf(Seq::<char>::empty()) =~= out@);
    }
    out
}

/// Collapses carriage returns and rejoins the committed lines, as the
/// progress output of a console tool requires.
pub fn normalize_console_output(s: &str) -> (r: String)
    ensures
        r@ == normalize_spec(s@),
{
    let chars: Vec<char> = str_to_chars(s);
    let replaced: Vec<char> = replace_crlf_exec(&chars);
    let n: usize = replaced.len();
    let mut lines: Vec<Vec<char>> = Vec::new();
    let mut cur: Vec<char> = Vec::new();
    let ghost mut gacc: Seq<Seq<char>> = Seq::empty();
    let mut i: usize = 0;
    proof {
        assert(replaced@.skip(0) =~= replaced@);
    }
    while i < n
        invariant
            i <= n,
            n == replaced@.len(),
            replaced@ == replace_crlf(s@),
            lines@.len() == gacc.len(),
            forall|k: int| 0 <= k < gacc.len() ==> gacc[k] == #[trigger] lines@[k]@,
            collapse_lines(replaced@.skip(i as int), cur@, gacc) == collapse_lines(
                replaced@,
                Seq::empty(),
                Seq::empty(),
            ),
        decreases n - i,
    {
        let c = replaced[i];
        proof {
            assert(replaced@.skip(i as int).skip(1) =~= replaced@.skip(i + 1));
        }
        if c == '\r' {
            cur = Vec::new();
        } else if c == '\n' {
            proof {
                gacc = gacc.push(cur@);
            }
            lines.push(cur);
            cur = Vec::new();
        } else {
            cur.push(c);
        }
        i = i + 1;
    }
    proof {
        assert(replaced@.skip(n as int) =~= Seq::<char>::empty());
        gacc = gacc.push(cur@);
    }
    lines.push(cur);
    proof {
        assert(gacc == collapse_lines(replace_crlf(s@), Seq::empty(), Seq::empty()));
    }
    let m: usize = lines.len();
    let mut out: String = String::new();
    let mut k: usize = 0;
    proof {
        assert(gacc.subrange(0, 0) =~= Seq::<Seq<char>>::empty());
    }
    while k < m
        invariant
            k <= m,
            m == lines@.len(),
            m >= 1,
            lines@.len() == gacc.len(),
            forall|t: int| 0 <= t < gacc.len() ==> gacc[t] == #[trigger] lines@[t]@,
            gacc == collapse_lines(replace_crlf(s@), Seq::empty(), Seq::empty()),
            out@ == join_lines(gacc.subrange(0, k as int)),
        decreases m - k,
    {
        proof {
            assert(gacc.subrange(0, k as int).push(gacc[k as int]) =~= gacc.subrange(0, k + 1));
            lemma_join_push(gacc.subrange(0, k as int), gacc[k as int]);
        }
        if k > 0 {
            push_char(&mut out, '\n');
        }
        let line = &lines[k];
        let mut j: usize = 0;
        let ghost out_before = out@;
        proof {
            assert(out_before + line@.subrange(0, 0) =~= out_before);
        }
        while j < line.len()
            invariant
                j <= line@.len(),
                out@ == out_before + line@.subrange(0, j as int),
            decreases line@.len() - j,
        {
            proof {
                assert((out_before + line@.subrange(0, j as int)).push(line@[j as int])
                    =~= out_before + line@.subrange(0, j + 1));
            }
            push_char(&mut out, line[j]);
            j = j + 1;
        }
        proof {
            assert(line@.subrange(0, line@.len() as int) =~= line@);
            assert(gacc[k as int] == line@);
            if k == 0 {
                assert(out_before =~= Seq::<char>::empty());
                assert(out@ =~= join_lines(gacc.subrange(0, 1)));
            } else {
                assert(out@ =~= join_lines(gacc.subrange(0, k as int)) + seq!['\n'] + line@);
            }
        }
        k = k + 1;
    }
    proof {
        assert(gacc.subrange(0, m as int) =~= gacc);
    }
    out
}

/// True iff the text contains a carriage return.
pub open spec fn has_cr(s: Seq<char>) -> bool {
    exists|i: int| 0 <= i < s.len() && #[trigger] s[i] == '\r'
}

/// A committed line holds neither carriage returns nor line feeds.
pub open spec fn line_clean(l: Seq<char>) -> bool {
    forall|j: int| 0 <= j < l.len() ==> #[trigger] l[j] != '\r' && l[j] != '\n'
}

/// All lines of a batch are clean.
pub open spec fn lines_clean(ls: Seq<Seq<char>>) -> bool {
    forall|k: int| 0 <= k < ls.len() ==> line_clean(#[trigger] ls[k])
}

/// The `\r\n` replacement leaves carriage-return-free text unchanged.
proof fn lemma_replace_crlf_no_cr(s: Seq<char>)
    requires
        !has_cr(s),
    ensures
        replace_crlf(s) == s,
    decreases s.len(),
{
    if s.len() == 0 {
        assert(replace_crlf(s) =~= s);
    } else {
        assert(s[0] != '\r');
        assert(!has_cr(s.skip(1))) by {
            if has_cr(s.skip(1)) {
                let i = choose|i: int| 0 <= i < s.skip(1).len() && #[trigger] s.skip(1)[i] == '\r';
                assert(0 <= i + 1 < s.len() && s[i + 1] == '\r');
            }
        }
        lemma_replace_crlf_no_cr(s.skip(1));
        assert(seq![s[0]] + s.skip(1) =~= s);
    }
}

/// Collapsing carriage-return-free text appends that text to the pending
/// line, as far as the final join can tell.
proof fn lemma_collapse_no_cr(s: Seq<char>, cur: Seq<char>, acc: Seq<Seq<char>>)
    requires
        !has_cr(s),
    ensures
        join_lines(collapse_lines(s, cur, acc)) == join_lines(acc.push(cur + s)),
    decreases s.len(),
{
    if s.len() == 0 {
        assert(cur + s =~= cur);
    } else {
        assert(s[0] != '\r');
        assert(!has_cr(s.skip(1))) by {
            if has_cr(s.skip(1)) {
                let i = choose|i: int| 0 <= i < s.skip(1).len() && #[trigger] s.skip(1)[i] == '\r';
                assert(0 <= i + 1 < s.len() && s[i + 1] == '\r');
            }
        }
        if s[0] == '\n' {
            lemma_collapse_no_cr(s.skip(1), Seq::empty(), acc.push(cur));
            assert(Seq::<char>::empty() + s.skip(1) =~= s.skip(1));
            lemma_join_push(acc.push(cur), s.skip(1));
            lemma_join_push(acc, cur);
            lemma_join_push(acc, cur + s);
            assert(cur + seq!['\n'] + s.skip(1) =~= cur + s);
            if acc.len() == 0 {
                assert(join_lines(acc.push(cur).push(s.skip(1))) =~= cur + s);
            } else {
                assert(join_lines(acc.push(cur).push(s.skip(1))) =~= join_lines(acc) + seq!['\n']
                    + (cur + s));
            }
        } else {
            lemma_collapse_no_cr(s.skip(1), cur.push(s[0]), acc);
            assert(cur.push(s[0]) + s.skip(1) =~= cur + s);
        }
    }
}

/// Every line that collapsing commits is clean, provided the pending line
/// and the lines committed so far are.
proof fn lemma_collapse_lines_clean(s: Seq<char>, cur: Seq<char>, acc: Seq<Seq<char>>)
    requires
        line_clean(cur),
        lines_clean(acc),
    ensures
        lines_clean(collapse_lines(s, cur, acc)),
    decreases s.len(),
{
    if s.len() == 0 {
        assert forall|k: int| 0 <= k < acc.push(cur).len() implies line_clean(
            #[trigger] acc.push(cur)[k],
        ) by {
            if k < acc.len() {
                assert(acc.push(cur)[k] == acc[k]);
            } else {
                assert(acc.push(cur)[k] == cur);
            }
        }
    } else if s[0] == '\r' {
        lemma_collapse_lines_clean(s.skip(1), Seq::empty(), acc);
    } else if s[0] == '\n' {
        assert(lines_clean(acc.push(cur))) by {
            assert forall|k: int| 0 <= k < acc.push(cur).len() implies line_clean(
                #[trigger] acc.push(cur)[k],
            ) by {
                if k < acc.len() {
                    assert(acc.push(cur)[k] == acc[k]);
                } else {
                    assert(acc.push(cur)[k] == cur);
                }
            }
        }
        lemma_collapse_lines_clean(s.skip(1), Seq::empty(), acc.push(cur));
    } else {
        assert(line_clean(cur.push(s[0]))) by {
            assert forall|j: int| 0 <= j < cur.push(s[0]).len() implies #[trigger] cur.push(
                s[0],
            )[j] != '\r' && cur.push(s[0])[j] != '\n' by {
                if j < cur.len() {
                    assert(cur.push(s[0])[j] == cur[j]);
                } else {
                    assert(cur.push(s[0])[j] == s[0]);
                }
            }
        }
        lemma_collapse_lines_clean(s.skip(1), cur.push(s[0]), acc);
    }
}

/// Joining clean lines produces text without carriage returns.
proof fn lemma_join_lines_no_cr(lines: Seq<Seq<char>>)
    requires
        lines_clean(lines),
    ensures
        !has_cr(join_lines(lines)),
    decreases lines.len(),
{
    if lines.len() == 0 {
    } else if lines.len() == 1 {
        if has_cr(join_lines(lines)) {
            let i = choose|i: int|
                0 <= i < join_lines(lines).len() && #[trigger] join_lines(lines)[i] == '\r';
            assert(line_clean(lines[0]));
            assert(lines[0][i] == '\r');
        }
    } else {
        assert(lines_clean(lines.skip(1))) by {
            assert forall|k: int| 0 <= k < lines.skip(1).len() implies line_clean(
                #[trigger] lines.skip(1)[k],
            ) by {
                assert(lines.skip(1)[k] == lines[k + 1]);
            }
        }
        lemma_join_lines_no_cr(lines.skip(1));
        if has_cr(join_lines(lines)) {
            let i = choose|i: int|
                0 <= i < join_lines(lines).len() && #[trigger] join_lines(lines)[i] == '\r';
            let head = lines[0];
            let tail = join_lines(lines.skip(1));
            assert(line_clean(head));
            if i < head.len() {
                assert(head[i] == '\r');
            } else if i == head.len() {
                assert(join_lines(lines)[i] == '\n');
            } else {
                assert(tail[i - head.len() - 1] == '\r');
                assert(has_cr(tail));
            }
        }
    }
}

/// Normalized text contains no carriage return.
pub proof fn lemma_normalize_no_cr(s: Seq<char>)
    ensures
        !has_cr(normalize_spec(s)),
{
    lemma_collapse_lines_clean(replace_crlf(s), Seq::empty(), Seq::empty());
    lemma_join_lines_no_cr(collapse_lines(replace_crlf(s), Seq::empty(), Seq::empty()));
}

/// Normalizing text that holds no carriage return returns it unchanged.
pub proof fn lemma_normalize_no_cr_identity(s: Seq<char>)
    requires
        !has_cr(s),
    ensures
        normalize_spec(s) == s,
{
    lemma_replace_crlf_no_cr(s);
    lemma_collapse_no_cr(s, Seq::empty(), Seq::empty());
    lemma_join_push(Seq::empty(), Seq::<char>::empty() + s);
    assert(Seq::<char>::empty() + s =~= s);
}

/// Carriage-return collapsing is idempotent on every input.
pub proof fn lemma_normalize_idempotent(s: Seq<char>)
    ensures
        normalize_spec(normalize_spec(s)) == normalize_spec(s),
{
    lemma_normalize_no_cr(s);
    lemma_normalize_no_cr_identity(normalize_spec(s));
}

/// True iff two escape characters stand next to each other; only such
/// text can make a stripping pass manufacture a new control-sequence
/// opener.
pub open spec fn has_esc_pair(s: Seq<char>) -> bool {
    exists|i: int|
        0 <= i && i + 1 < s.len() && #[trigger] s[i] == '\u{1b}' && s[i + 1] == '\u{1b}'
}

proof fn lemma_no_esc_pair_skip(s: Seq<char>, k: int)
    requires
        !has_esc_pair(s),
        0 <= k <= s.len(),
    ensures
        !has_esc_pair(s.skip(k)),
{
    if has_esc_pair(s.skip(k)) {
        let i = choose|i: int|
            0 <= i && i + 1 < s.skip(k).len() && #[trigger] s.skip(k)[i] == '\u{1b}' && s.skip(
                k,
            )[i + 1] == '\u{1b}';
        assert(0 <= i + k && i + k + 1 < s.len() && s[i + k] == '\u{1b}' && s[i + k + 1]
            == '\u{1b}');
    }
}

proof fn lemma_clean_cons(c: char, x: Seq<char>)
    requires
        !has_csi_start(x),
        !(c == '\u{1b}' && x.len() > 0 && x[0] == '['),
    ensures
        !has_csi_start(seq![c] + x),
{
    if has_csi_start(seq![c] + x) {
        let i = choose|i: int|
            0 <= i && i + 1 < (seq![c] + x).len() && #[trigger] (seq![c] + x)[i] == '\u{1b}' && (
            seq![c] + x)[i + 1] == '[';
        if i == 0 {
            assert(c == '\u{1b}' && x[0] == '[');
        } else {
            assert(0 <= i - 1 && i < x.len() && x[i - 1] == '\u{1b}' && x[i] == '[');
        }
    }
}

/// Stripping text without adjacent escape characters leaves no
/// control-sequence opener behind.
pub proof fn lemma_strip_ansi_clean(s: Seq<char>)
    requires
        !has_esc_pair(s),
    ensures
        !has_csi_start(strip_ansi_spec(s)),
    decreases s.len(), 1int,
{
    if s.len() == 0 {
    } else if s[0] == '\u{1b}' && s.len() >= 2 && s[1] == '[' {
        lemma_no_esc_pair_skip(s, 2);
        lemma_strip_csi_rest_clean(s.skip(2));
    } else {
        lemma_no_esc_pair_skip(s, 1);
        lemma_strip_ansi_clean(s.skip(1));
        let rest = strip_ansi_spec(s.skip(1));
        if s[0] == '\u{1b}' {
            if s.len() == 1 {
                assert(rest =~= Seq::<char>::empty());
                lemma_clean_cons(s[0], rest);
            } else {
                assert(s[1] != '\u{1b}') by {
                    assert(!(0 <= 0int && 0int + 1 < s.len() && s[0int] == '\u{1b}' && s[0int + 1]
                        == '\u{1b}'));
                }
                assert(s[1] != '[');
                assert(s.skip(1)[0] == s[1]);
                assert(rest == seq![s.skip(1)[0]] + strip_ansi_spec(s.skip(1).skip(1)));
                assert(rest[0] == s[1]);
                lemma_clean_cons(s[0], rest);
            }
        } else {
            lemma_clean_cons(s[0], rest);
        }
    }
}

proof fn lemma_strip_csi_rest_clean(s: Seq<char>)
    requires
        !has_esc_pair(s),
    ensures
        !has_csi_start(strip_csi_rest(s)),
    decreases s.len(), 0int,
{
    if s.len() == 0 {
    } else if is_csi_terminator(s[0]) {
        lemma_no_esc_pair_skip(s, 1);
        lemma_strip_ansi_clean(s.skip(1));
    } else {
        lemma_no_esc_pair_skip(s, 1);
        lemma_strip_csi_rest_clean(s.skip(1));
    }
}

/// Stripping is idempotent on every text without adjacent escape
/// characters.
pub proof fn lemma_strip_ansi_idempotent_no_esc_pairs(s: Seq<char>)
    requires
        !has_esc_pair(s),
    ensures
        strip_ansi_spec(strip_ansi_spec(s)) == strip_ansi_spec(s),
{
    lemma_strip_ansi_clean(s);
    lemma_strip_ansi_idempotent(s);
}

} // verus!
