//! Case-insensitive token matching between package names and ids.
//!
//! Comparisons work on lowercased, space-free text.  Short fragments do
//! not count as substring matches, so an accidental two-letter overlap
//! does not pair unrelated entries.  Scores saturate at the largest
//! signed 32-bit value, which no real name can reach.

use crate::strutil::{contains_seq, is_ws_char, lower_of, str_to_chars, to_lower, trim_chars,
    trim_spec, chars_to_string, str_eq, find_sub, find_sub_chars, lemma_push_deep_view};
use crate::table::sat_add;
use vstd::prelude::*;
use vstd::string::StrSliceExecFns;

verus! {

/// The text with every plain space removed.
pub open spec fn despace(s: Seq<char>) -> Seq<char>
    decreases s.len(),
{
    if s.len() == 0 {
        Seq::empty()
    } else if s[0] == ' ' {
        despace(s.skip(1))
    } else {
        seq![s[0]] + despace(s.skip(1))
    }
}

/// Removes every plain space from a character vector.
pub fn despace_chars(v: &Vec<char>) -> (r: Vec<char>)
    ensures
        r@ == despace(v@),
{
    let n: usize = v.len();
    let mut out: Vec<char> = Vec::new();
    let mut i: usize = 0;
    proof {
        assert(v@.skip(0) =~= v@);
        assert(Seq::<char>::empty() + despace(v@) =~= despace(v@));
    }
    while i < n
        invariant
            i <= n,
            n == v@.len(),
            out@ + despace(v@.skip(i as int)) == despace(v@),
        decreases n - i,
    {
        let c = v[i];
        proof {
            assert(v@.skip(i as int).skip(1) =~= v@.skip(i + 1));
        }
        if c != ' ' {
            let ghost before = out@;
            out.push(c);
            proof {
                assert(out@ =~= before + seq![v@[i as int]]);
                assert(before + seq![v@[i as int]] + despace(v@.skip(i + 1)) =~= before + (seq![
                    v@[i as int],
                ] + despace(v@.skip(i + 1))));
            }
        }
        i = i + 1;
    }
    proof {
        assert(v@.skip(n as int) =~= Seq::<char>::empty());
        assert(out@ + Seq::<char>::empty() =~= out@);
    }
    out
}

/// The UTF-8 byte count of one character.
pub open spec fn char_utf8_len(c: char) -> int {
    if (c as u32) < 0x80 {
        1
    } else if (c as u32) < 0x800 {
        2
    } else if (c as u32) < 0x10000 {
        3
    } else {
        4
    }
}

/// The UTF-8 byte length of a text, saturated at the machine limit.
pub open spec fn byte_len_sat(s: Seq<char>) -> int
    decreases s.len(),
{
    if s.len() == 0 {
        0
    } else {
        sat_add(byte_len_sat(s.skip(1)), char_utf8_len(s[0]))
    }
}

fn utf8_len_exec(c: char) -> (r: usize)
    ensures
        r == char_utf8_len(c),
{
    let v: u32 = c as u32;
    if v < 0x80 {
        1
    } else if v < 0x800 {
        2
    } else if v < 0x10000 {
        3
    } else {
        4
    }
}

/// The saturated UTF-8 byte length of a character vector.
pub fn byte_len_of(v: &Vec<char>) -> (r: usize)
    ensures
        r == byte_len_sat(v@),
{
    let n: usize = v.len();
    let mut total: usize = 0;
    let mut i: usize = n;
    proof {
        assert(v@.skip(n as int) =~= Seq::<char>::empty());
    }
    while i > 0
        invariant
            i <= n,
            n == v@.len(),
            total == byte_len_sat(v@.skip(i as int)),
        decreases i,
    {
        i = i - 1;
        let w = utf8_len_exec(v[i]);
        proof {
            assert(v@.skip(i as int).skip(1) =~= v@.skip(i + 1));
            assert(v@.skip(i as int)[0] == v@[i as int]);
        }
        total = total.saturating_add(w);
    }
    proof {
        assert(v@.skip(0) =~= v@);
    }
    total
}

/// Equality of two character vectors.
pub fn chars_eq(a: &Vec<char>, b: &Vec<char>) -> (r: bool)
    ensures
        r == (a@ == b@),
{
    let n: usize = a.len();
    if n != b.len() {
        return false;
    }
    let mut i: usize = 0;
    while i < n
        invariant
            i <= n,
            n == a@.len(),
            n == b@.len(),
            forall|j: int| 0 <= j < i ==> #[trigger] a@[j] == b@[j],
        decreases n - i,
    {
        if a[i] != b[i] {
            return false;
        }
        i = i + 1;
    }
    proof {
        assert(a@ =~= b@);
    }
    true
}

/// Whether one lowercased, space-free token matches the target: exactly,
/// or as a substring of at least three bytes in either direction.
pub open spec fn token_matches(ls: Seq<char>, lt: Seq<char>) -> bool {
    lt.len() > 0 && (ls == lt || (byte_len_sat(lt) >= 3 && contains_seq(ls, lt)) || (byte_len_sat(
        ls,
    ) >= 3 && contains_seq(lt, ls)))
}

/// Whether the target, lowercased and space-free, matches any token.
pub open spec fn match_tokens_spec(s: Seq<char>, tokens: Seq<Seq<char>>) -> bool {
    let ls = despace(lower_of(s));
    ls.len() > 0 && exists|i: int|
        0 <= i < tokens.len() && token_matches(ls, despace(lower_of(#[trigger] tokens[i])))
}

/// True iff the target matches any of the tokens, comparing lowercased
/// and space-free text, with whole matches always accepted and substring
/// matches only from three bytes up.
pub fn match_tokens(s: &str, tokens: &Vec<String>) -> (r: bool)
    ensures
        r == match_tokens_spec(s@, tokens.deep_view()),
{
    let low = to_lower(s);
    let low_chars = str_to_chars(low.as_str());
    let ls = despace_chars(&low_chars);
    if ls.len() == 0 {
        return false;
    }
    let n: usize = tokens.len();
    let mut i: usize = 0;
    while i < n
        invariant
            i <= n,
            n == tokens@.len(),
            ls@ == despace(lower_of(s@)),
            ls@.len() > 0,
            forall|j: int|
                0 <= j < i ==> !token_matches(
                    despace(lower_of(s@)),
                    despace(lower_of(#[trigger] tokens.deep_view()[j])),
                ),
        decreases n - i,
    {
        proof {
            assert(tokens.deep_view()[i as int] == tokens@[i as int]@);
        }
        let tl = to_lower(tokens[i].as_str());
        let tl_chars = str_to_chars(tl.as_str());
        let lt = despace_chars(&tl_chars);
        if lt.len() > 0 {
            if chars_eq(&ls, &lt) {
                return true;
            }
            if byte_len_of(&lt) >= 3 && crate::strutil::contains_chars(&ls, &lt) {
                return true;
            }
            if byte_len_of(&ls) >= 3 && crate::strutil::contains_chars(&lt, &ls) {
                return true;
            }
        }
        i = i + 1;
    }
    false
}

/// Adding one partial score, saturated at the largest `i32`.
pub open spec fn score_step(acc: int, add: int) -> int {
    if acc + add > i32::MAX {
        i32::MAX as int
    } else {
        acc + add
    }
}

/// The score one token contributes: a whole match counts a fixed premium,
/// a substring match counts ten per byte of the token, a reverse
/// containment five per byte of the target, each capped at the largest
/// `i32`.
pub open spec fn token_score(ls: Seq<char>, lt: Seq<char>) -> int {
    if lt.len() == 0 {
        0
    } else if ls == lt {
        100
    } else if byte_len_sat(lt) >= 3 && contains_seq(ls, lt) {
        if byte_len_sat(lt) * 10 > i32::MAX {
            i32::MAX as int
        } else {
            byte_len_sat(lt) * 10
        }
    } else if byte_len_sat(lt) >= 3 && contains_seq(lt, ls) && byte_len_sat(ls) >= 3 {
        if byte_len_sat(ls) * 5 > i32::MAX {
            i32::MAX as int
        } else {
            byte_len_sat(ls) * 5
        }
    } else {
        0
    }
}

/// The accumulated score over the tokens from index `i` on.
pub open spec fn score_acc(ls: Seq<char>, tokens: Seq<Seq<char>>, i: int, acc: int) -> int
    decreases tokens.len() - i,
{
    if i < 0 || i >= tokens.len() {
        acc
    } else {
        score_acc(ls, tokens, i + 1, score_step(acc, token_score(ls, despace(lower_of(tokens[i])))))
    }
}

/// The match score of a target against a token list.
pub open spec fn match_score_spec(s: Seq<char>, tokens: Seq<Seq<char>>) -> int {
    let ls = despace(lower_of(s));
    if ls.len() == 0 {
        0
    } else {
        score_acc(ls, tokens, 0, 0)
    }
}

/// Scores the target against the tokens: the higher, the better the
/// match.  Sums saturate at the largest `i32` instead of overflowing.
pub fn match_score(s: &str, tokens: &Vec<String>) -> (r: i32)
    ensures
        r == match_score_spec(s@, tokens.deep_view()),
{
    let low = to_lower(s);
    let low_chars = str_to_chars(low.as_str());
    let ls = despace_chars(&low_chars);
    if ls.len() == 0 {
        return 0;
    }
    let n: usize = tokens.len();
    let mut score: i32 = 0;
    let mut i: usize = 0;
    while i < n
        invariant
            i <= n,
            n == tokens@.len(),
            ls@ == despace(lower_of(s@)),
            ls@.len() > 0,
            score >= 0,
            score_acc(ls@, tokens.deep_view(), i as int, score as int) == score_acc(
                ls@,
                tokens.deep_view(),
                0,
                0,
            ),
        decreases n - i,
    {
        proof {
            assert(tokens.deep_view()[i as int] == tokens@[i as int]@);
        }
        let tl = to_lower(tokens[i].as_str());
        let tl_chars = str_to_chars(tl.as_str());
        let lt = despace_chars(&tl_chars);
        let mut add: i32 = 0;
        if lt.len() == 0 {
            add = 0;
        } else if chars_eq(&ls, &lt) {
            add = 100;
        } else {
            let bl = byte_len_of(&lt);
            if bl >= 3 && crate::strutil::contains_chars(&ls, &lt) {
                if bl > (i32::MAX as usize) / 10 {
                    add = i32::MAX;
                } else {
                    add = (bl * 10) as i32;
                }
            } else if bl >= 3 && crate::strutil::contains_chars(&lt, &ls) {
                let sl = byte_len_of(&ls);
                if sl >= 3 {
                    if sl > (i32::MAX as usize) / 5 {
                        add = i32::MAX;
                    } else {
                        add = (sl * 5) as i32;
                    }
                }
            }
        }
        proof {
            assert(add == token_score(ls@, despace(lower_of(tokens.deep_view()[i as int]))));
        }
        if score > i32::MAX - add {
            score = i32::MAX;
        } else {
            score = score + add;
        }
        i = i + 1;
    }
    score
}

/// A separator inside a display name: whitespace, dash or underscore.
pub open spec fn name_sep(c: char) -> bool {
    is_ws_char(c) || c == '-' || c == '_'
}

/// A separator inside a package id: dot, underscore or dash.
pub open spec fn id_sep(c: char) -> bool {
    c == '.' || c == '_' || c == '-'
}

/// One pass of separator splitting; empty segments are kept, as the
/// standard splitter keeps them.
pub open spec fn split_sep_acc(
    s: Seq<char>,
    cur: Seq<char>,
    acc: Seq<Seq<char>>,
    by_id: bool,
) -> Seq<Seq<char>>
    decreases s.len(),
{
    if s.len() == 0 {
        acc.push(cur)
    } else if (if by_id {
        id_sep(s[0])
    } else {
        name_sep(s[0])
    }) {
        split_sep_acc(s.skip(1), Seq::empty(), acc.push(cur), by_id)
    } else {
        split_sep_acc(s.skip(1), cur.push(s[0]), acc, by_id)
    }
}

fn sep_exec(c: char, by_id: bool) -> (r: bool)
    ensures
        r == if by_id {
            id_sep(c)
        } else {
            name_sep(c)
        },
{
    if by_id {
        c == '.' || c == '_' || c == '-'
    } else {
        crate::strutil::whitespace_char(c) || c == '-' || c == '_'
    }
}

fn split_pieces(chars: &Vec<char>, by_id: bool) -> (r: Vec<String>)
    ensures
        r.deep_view() == split_sep_acc(chars@, Seq::empty(), Seq::empty(), by_id),
{
    let n: usize = chars.len();
    let mut parts: Vec<String> = Vec::new();
    let mut cur: Vec<char> = Vec::new();
    let mut i: usize = 0;
    proof {
        assert(chars@.skip(0) =~= chars@);
        assert(parts.deep_view() =~= Seq::<Seq<char>>::empty());
    }
    while i < n
        invariant
            i <= n,
            n == chars@.len(),
            split_sep_acc(chars@.skip(i as int), cur@, parts.deep_view(), by_id) == split_sep_acc(
                chars@,
                Seq::empty(),
                Seq::empty(),
                by_id,
            ),
        decreases n - i,
    {
        let c = chars[i];
        proof {
            assert(chars@.skip(i as int).skip(1) =~= chars@.skip(i + 1));
        }
        if sep_exec(c, by_id) {
            let piece = chars_to_string(&cur);
            let ghost pre = parts;
            let ghost cur0 = cur@;
            parts.push(piece);
            proof {
                lemma_push_deep_view(&pre, &parts, parts@.last());
                assert(parts.deep_view() == pre.deep_view().push(cur0));
            }
            cur = Vec::new();
        } else {
            cur.push(c);
        }
        i = i + 1;
    }
    proof {
        assert(chars@.skip(n as int) =~= Seq::<char>::empty());
    }
    let piece = chars_to_string(&cur);
    let ghost pre = parts;
    let ghost cur0 = cur@;
    parts.push(piece);
    proof {
        lemma_push_deep_view(&pre, &parts, parts@.last());
        assert(parts.deep_view() == pre.deep_view().push(cur0));
    }
    parts
}

/// The generic fragments that carry no identity and are never tokens.
pub open spec fn is_ignored(w: Seq<char>) -> bool {
    ||| w == "exe"@
    ||| w == "msi"@
    ||| w == "setup"@
    ||| w == "install"@
    ||| w == "installer"@
    ||| w == "update"@
    ||| w == "patch"@
    ||| w == "x64"@
    ||| w == "x86"@
    ||| w == "arm64"@
    ||| w == "win64"@
    ||| w == "win32"@
    ||| w == "version"@
    ||| w == "v1"@
    ||| w == "v2"@
    ||| w == "v3"@
    ||| w == "edition"@
    ||| w == "build"@
    ||| w == "release"@
    ||| w == "stable"@
    ||| w == "software"@
    ||| w == "apps"@
    ||| w == "latest"@
}

fn is_ignored_exec(w: &str) -> (r: bool)
    ensures
        r == is_ignored(w@),
{
    str_eq(w, "exe") || str_eq(w, "msi") || str_eq(w, "setup") || str_eq(w, "install") || str_eq(
        w,
        "installer",
    ) || str_eq(w, "update") || str_eq(w, "patch") || str_eq(w, "x64") || str_eq(w, "x86")
        || str_eq(w, "arm64") || str_eq(w, "win64") || str_eq(w, "win32") || str_eq(w, "version")
        || str_eq(w, "v1") || str_eq(w, "v2") || str_eq(w, "v3") || str_eq(w, "edition") || str_eq(
        w,
        "build",
    ) || str_eq(w, "release") || str_eq(w, "stable") || str_eq(w, "software") || str_eq(w, "apps")
        || str_eq(w, "latest")
}

/// An ASCII decimal digit.
pub open spec fn ascii_digit(c: char) -> bool {
    0x30 <= (c as u32) <= 0x39
}

/// The first character of the lowercased word, or a space when the
/// lowercased word is empty.
pub open spec fn first_lower(w: Seq<char>) -> char {
    if lower_of(w).len() > 0 {
        lower_of(w)[0]
    } else {
        ' '
    }
}

/// Whether a word becomes a token: more than two bytes long, not one of
/// the ignored fragments, and not opening with a digit (a version-like
/// word).
pub open spec fn keep_word_spec(w: Seq<char>) -> bool {
    byte_len_sat(w) > 2 && !is_ignored(lower_of(w)) && !ascii_digit(first_lower(w))
}

fn keep_word(w: &str) -> (r: bool)
    ensures
        r == keep_word_spec(w@),
{
    let wc = str_to_chars(w);
    let bl = byte_len_of(&wc);
    if bl <= 2 {
        return false;
    }
    let wl = to_lower(w);
    if is_ignored_exec(wl.as_str()) {
        return false;
    }
    let first: char = if wl.as_str().unicode_len() > 0 {
        wl.as_str().get_char(0)
    } else {
        ' '
    };
    let v: u32 = first as u32;
    !(0x30 <= v && v <= 0x39)
}

/// The words of a piece list that become tokens, from index `j` on.
pub open spec fn keep_words(pieces: Seq<Seq<char>>, j: int) -> Seq<Seq<char>>
    decreases pieces.len() - j,
{
    if j < 0 || j >= pieces.len() {
        Seq::empty()
    } else {
        (if keep_word_spec(pieces[j]) {
            seq![pieces[j]]
        } else {
            Seq::empty()
        }) + keep_words(pieces, j + 1)
    }
}

fn keep_filter(pieces: &Vec<String>) -> (r: Vec<String>)
    ensures
        r.deep_view() == keep_words(pieces.deep_view(), 0),
{
    let n: usize = pieces.len();
    let mut out: Vec<String> = Vec::new();
    let mut j: usize = 0;
    proof {
        assert(out.deep_view() =~= Seq::<Seq<char>>::empty());
        assert(Seq::<Seq<char>>::empty() + keep_words(pieces.deep_view(), 0) =~= keep_words(
            pieces.deep_view(),
            0,
        ));
    }
    while j < n
        invariant
            j <= n,
            n == pieces@.len(),
            out.deep_view() + keep_words(pieces.deep_view(), j as int) == keep_words(
                pieces.deep_view(),
                0,
            ),
        decreases n - j,
    {
        proof {
            assert(pieces.deep_view()[j as int] == pieces@[j as int]@);
        }
        if keep_word(pieces[j].as_str()) {
            let ghost pre = out;
            out.push(pieces[j].clone());
            proof {
                lemma_push_deep_view(&pre, &out, out@.last());
                assert(pre.deep_view().push(pieces.deep_view()[j as int]) + keep_words(
                    pieces.deep_view(),
                    j + 1,
                ) =~= pre.deep_view() + (seq![pieces.deep_view()[j as int]] + keep_words(
                    pieces.deep_view(),
                    j + 1,
                )));
            }
        }
        j = j + 1;
    }
    proof {
        assert(out.deep_view() + Seq::<Seq<char>>::empty() =~= out.deep_view());
    }
    out
}

/// The token cut in front of a version suffix: everything before the
/// first ` version` of the lowercased name, trimmed, where that position
/// falls inside the name.
pub open spec fn version_cut(name: Seq<char>) -> Seq<Seq<char>> {
    let p = find_sub(lower_of(name), seq![' ', 'v', 'e', 'r', 's', 'i', 'o', 'n']);
    if 0 <= p <= name.len() {
        seq![trim_spec(name.take(p))]
    } else {
        Seq::empty()
    }
}

/// The search tokens of one package: the name itself, the name without
/// spaces, a version-free cut of the name, and the identity-bearing
/// words of the name and of the id.
pub open spec fn tokens_from_spec(id: Seq<char>, name: Seq<char>) -> Seq<Seq<char>> {
    (if name.len() > 0 {
        seq![name, despace(name)] + version_cut(name) + keep_words(
            split_sep_acc(name, Seq::empty(), Seq::empty(), false),
            0,
        )
    } else {
        Seq::empty()
    }) + keep_words(split_sep_acc(id, Seq::empty(), Seq::empty(), true), 0)
}

/// Extracts the search tokens of one package from its id and name.
pub fn tokens_from(id: &str, name: &str) -> (r: Vec<String>)
    ensures
        r.deep_view() == tokens_from_spec(id@, name@),
{
    let mut v: Vec<String> = Vec::new();
    if !name.is_empty() {
        v.push(name.to_owned());
        let name_chars = str_to_chars(name);
        let ds = despace_chars(&name_chars);
        v.push(chars_to_string(&ds));
        proof {
            assert(v.deep_view() =~= seq![name@, despace(name@)]);
        }
        let low = to_lower(name);
        let low_chars = str_to_chars(low.as_str());
        let mut needle: Vec<char> = Vec::new();
        needle.push(' ');
        needle.push('v');
        needle.push('e');
        needle.push('r');
        needle.push('s');
        needle.push('i');
        needle.push('o');
        needle.push('n');
        proof {
            assert(needle@ =~= seq![' ', 'v', 'e', 'r', 's', 'i', 'o', 'n']);
        }
        let ghost before_cut = v.deep_view();
        let found = find_sub_chars(&low_chars, &needle);
        let nlen: usize = name_chars.len();
        let mut cut_pushed: bool = false;
        match found {
            Some(p) => {
                if p <= nlen {
                    let head = crate::settings::subrange_chars(&name_chars, 0, p);
                    let tr = trim_chars(&head);
                    v.push(chars_to_string(&tr));
                    cut_pushed = true;
                    proof {
                        assert(name@.take(p as int) =~= name@.subrange(0, p as int));
                        assert(v.deep_view() =~= before_cut + version_cut(name@));
                    }
                }
            },
            None => {},
        }
        proof {
            if !cut_pushed {
                assert(version_cut(name@) =~= Seq::<Seq<char>>::empty());
                assert(v.deep_view() =~= before_cut + version_cut(name@));
            }
        }
        let words = split_pieces(&name_chars, false);
        let kept = keep_filter(&words);
        let ghost before_words = v.deep_view();
        v = crate::command::append_all(v, &kept);
        proof {
            assert(v.deep_view() =~= seq![name@, despace(name@)] + version_cut(name@) + keep_words(
                split_sep_acc(name@, Seq::empty(), Seq::empty(), false),
                0,
            ));
        }
    }
    let ghost name_part = v.deep_view();
    let id_chars = str_to_chars(id);
    let pieces = split_pieces(&id_chars, true);
    let kept_id = keep_filter(&pieces);
    v = crate::command::append_all(v, &kept_id);
    proof {
        if name@.len() > 0 {
            assert(v.deep_view() =~= tokens_from_spec(id@, name@));
        } else {
            assert(name_part =~= Seq::<Seq<char>>::empty());
            assert(v.deep_view() =~= tokens_from_spec(id@, name@));
        }
    }
    v
}

} // verus!
