//! Parser for the tool's key-value detail output.
//!
//! Each line is either `key: value` (an ASCII or full-width colon), or a
//! continuation of the section a previous key opened: descriptions and
//! release notes accumulate lines, dependency lists accumulate bullet
//! entries.  Key names are matched case-insensitively against the
//! English and Chinese spellings the tool uses.

use crate::models::ShowDetails;
use crate::strutil::{
    find_char, find_sub, is_ws_char, lower_of, lines_of, split_lines, str_eq, str_to_chars,
    to_lower, trim_chars, trim_spec, chars_to_string, lemma_push_deep_view,
};
use crate::settings::subrange_chars;
use vstd::prelude::*;
use vstd::string::StrSliceExecFns;

verus! {

/// The canonical field a key line addresses, or none.
#[derive(Debug, Clone, Copy, PartialEq, Eq, Structural)]
pub enum FieldKey {
    KName,
    KId,
    KVersion,
    KSource,
    KPublisher,
    KAuthor,
    KHomepage,
    KLicense,
    KDescription,
    KMoniker,
    KTags,
    KManifest,
    KInstallerType,
    KDownloadUrl,
    KSha256,
    KSize,
    KArchitecture,
    KInstallerLocale,
    KReleaseNotes,
    KReleaseNotesUrl,
    KDependencies,
    KNone,
}

/// The section continuation state between lines.
#[derive(Debug, Clone, Copy, PartialEq, Eq, Structural)]
pub enum DetailSection {
    NoActive,
    InDescription,
    InReleaseNotes,
    InDependencies,
}

/// The fields under construction, as mathematical values.
pub struct DetailsState {
    pub name: Option<Seq<char>>,
    pub id: Option<Seq<char>>,
    pub version: Option<Seq<char>>,
    pub source: Option<Seq<char>>,
    pub publisher: Option<Seq<char>>,
    pub author: Option<Seq<char>>,
    pub homepage: Option<Seq<char>>,
    pub license: Option<Seq<char>>,
    pub description: Option<Seq<char>>,
    pub moniker: Option<Seq<char>>,
    pub tags: Option<Seq<Seq<char>>>,
    pub manifest: Option<Seq<char>>,
    pub installer_type: Option<Seq<char>>,
    pub installer_locale: Option<Seq<char>>,
    pub download_url: Option<Seq<char>>,
    pub sha256: Option<Seq<char>>,
    pub size: Option<Seq<char>>,
    pub architecture: Option<Seq<char>>,
    pub dependencies: Option<Seq<Seq<char>>>,
    pub release_notes: Option<Seq<char>>,
    pub release_notes_url: Option<Seq<char>>,
}

/// The empty state every parse starts from.
pub open spec fn init_details() -> DetailsState {
    DetailsState {
        name: None,
        id: None,
        version: None,
        source: None,
        publisher: None,
        author: None,
        homepage: None,
        license: None,
        description: None,
        moniker: None,
        tags: None,
        manifest: None,
        installer_type: None,
        installer_locale: None,
        download_url: None,
        sha256: None,
        size: None,
        architecture: None,
        dependencies: None,
        release_notes: None,
        release_notes_url: None,
    }
}

/// The canonical field of a lowercased key.
pub open spec fn norm_key_spec(k: Seq<char>) -> FieldKey {
    if k == "name"@ || k == "名称"@ {
        FieldKey::KName
    } else if k == "id"@ || k == "软件包 id"@ || k == "软件包id"@ {
        FieldKey::KId
    } else if k == "version"@ || k == "版本"@ {
        FieldKey::KVersion
    } else if k == "source"@ || k == "源"@ {
        FieldKey::KSource
    } else if k == "publisher"@ || k == "发布者"@ {
        FieldKey::KPublisher
    } else if k == "author"@ || k == "作者"@ {
        FieldKey::KAuthor
    } else if k == "homepage"@ || k == "主页"@ || k == "website"@ || k == "网站"@ {
        FieldKey::KHomepage
    } else if k == "license"@ || k == "许可"@ {
        FieldKey::KLicense
    } else if k == "description"@ || k == "描述"@ {
        FieldKey::KDescription
    } else if k == "moniker"@ || k == "别名"@ || k == "appmoniker"@ {
        FieldKey::KMoniker
    } else if k == "tags"@ || k == "标签"@ {
        FieldKey::KTags
    } else if k == "manifest"@ || k == "清单"@ {
        FieldKey::KManifest
    } else if k == "installer type"@ || k == "安装程序类型"@ {
        FieldKey::KInstallerType
    } else if k == "installer url"@ || k == "下载地址"@ || k == "安装程序 url"@ {
        FieldKey::KDownloadUrl
    } else if k == "installer sha256"@ || k == "安装程序 sha256"@ || k == "sha256"@ {
        FieldKey::KSha256
    } else if k == "installer size"@ || k == "下载大小"@ || k == "大小"@ {
        FieldKey::KSize
    } else if k == "architecture"@ || k == "体系结构"@ || k == "架构"@ {
        FieldKey::KArchitecture
    } else if k == "installer locale"@ || k == "安装程序语言"@ || k == "安装程序区域设置"@ {
        FieldKey::KInstallerLocale
    } else if k == "release notes"@ || k == "发布说明"@ || k == "发行说明"@ || k
        == "release-notes"@ || k == "releasenotes"@ {
        FieldKey::KReleaseNotes
    } else if k == "release notes url"@ || k == "发布说明网址"@ || k == "发布说明链接"@ || k
        == "发行说明网址"@ || k == "发行说明链接"@ || k == "release-notes url"@ || k
        == "releasenotes url"@ || k == "release notes link"@ || k == "release-notes link"@ || k
        == "releasenotes link"@ {
        FieldKey::KReleaseNotesUrl
    } else if k == "dependencies"@ || k == "依赖项"@ {
        FieldKey::KDependencies
    } else {
        FieldKey::KNone
    }
}

fn norm_key(k: &str) -> (r: FieldKey)
    ensures
        r == norm_key_spec(k@),
{
    if str_eq(k, "name") || str_eq(k, "名称") {
        FieldKey::KName
    } else if str_eq(k, "id") || str_eq(k, "软件包 id") || str_eq(k, "软件包id") {
        FieldKey::KId
    } else if str_eq(k, "version") || str_eq(k, "版本") {
        FieldKey::KVersion
    } else if str_eq(k, "source") || str_eq(k, "源") {
        FieldKey::KSource
    } else if str_eq(k, "publisher") || str_eq(k, "发布者") {
        FieldKey::KPublisher
    } else if str_eq(k, "author") || str_eq(k, "作者") {
        FieldKey::KAuthor
    } else if str_eq(k, "homepage") || str_eq(k, "主页") || str_eq(k, "website") || str_eq(
        k,
        "网站",
    ) {
        FieldKey::KHomepage
    } else if str_eq(k, "license") || str_eq(k, "许可") {
        FieldKey::KLicense
    } else if str_eq(k, "description") || str_eq(k, "描述") {
        FieldKey::KDescription
    } else if str_eq(k, "moniker") || str_eq(k, "别名") || str_eq(k, "appmoniker") {
        FieldKey::KMoniker
    } else if str_eq(k, "tags") || str_eq(k, "标签") {
        FieldKey::KTags
    } else if str_eq(k, "manifest") || str_eq(k, "清单") {
        FieldKey::KManifest
    } else if str_eq(k, "installer type") || str_eq(k, "安装程序类型") {
        FieldKey::KInstallerType
    } else if str_eq(k, "installer url") || str_eq(k, "下载地址") || str_eq(k, "安装程序 url") {
        FieldKey::KDownloadUrl
    } else if str_eq(k, "installer sha256") || str_eq(k, "安装程序 sha256") || str_eq(
        k,
        "sha256",
    ) {
        FieldKey::KSha256
    } else if str_eq(k, "installer size") || str_eq(k, "下载大小") || str_eq(k, "大小") {
        FieldKey::KSize
    } else if str_eq(k, "architecture") || str_eq(k, "体系结构") || str_eq(k, "架构") {
        FieldKey::KArchitecture
    } else if str_eq(k, "installer locale") || str_eq(k, "安装程序语言") || str_eq(
        k,
        "安装程序区域设置",
    ) {
        FieldKey::KInstallerLocale
    } else if str_eq(k, "release notes") || str_eq(k, "发布说明") || str_eq(k, "发行说明")
        || str_eq(k, "release-notes") || str_eq(k, "releasenotes") {
        FieldKey::KReleaseNotes
    } else if str_eq(k, "release notes url") || str_eq(k, "发布说明网址") || str_eq(
        k,
        "发布说明链接",
    ) || str_eq(k, "发行说明网址") || str_eq(k, "发行说明链接") || str_eq(k, "release-notes url")
        || str_eq(k, "releasenotes url") || str_eq(k, "release notes link") || str_eq(
        k,
        "release-notes link",
    ) || str_eq(k, "releasenotes link") {
        FieldKey::KReleaseNotesUrl
    } else if str_eq(k, "dependencies") || str_eq(k, "依赖项") {
        FieldKey::KDependencies
    } else {
        FieldKey::KNone
    }
}

/// A separator inside a tag or dependency value.
pub open spec fn tag_sep(c: char) -> bool {
    c == ',' || c == ';' || is_ws_char(c)
}

/// The non-empty pieces of a value split at tag separators, from `j` on,
/// with the pending piece `cur`.
pub open spec fn tag_parts_acc(s: Seq<char>, cur: Seq<char>, acc: Seq<Seq<char>>) -> Seq<Seq<char>>
    decreases s.len(),
{
    if s.len() == 0 {
        if cur.len() > 0 {
            acc.push(cur)
        } else {
            acc
        }
    } else if tag_sep(s[0]) {
        tag_parts_acc(
            s.skip(1),
            Seq::empty(),
            if cur.len() > 0 {
                acc.push(cur)
            } else {
                acc
            },
        )
    } else {
        tag_parts_acc(s.skip(1), cur.push(s[0]), acc)
    }
}

/// The non-empty pieces of a tag value.
pub open spec fn tag_parts(s: Seq<char>) -> Seq<Seq<char>> {
    tag_parts_acc(s, Seq::empty(), Seq::empty())
}

/// The dependency entries of a value: the tag pieces without the tool's
/// placeholder words for "none".
pub open spec fn dep_parts(s: Seq<char>) -> Seq<Seq<char>> {
    tag_parts(s).filter(|p: Seq<char>| p != "无"@ && p != "未指定"@)
}

fn tag_parts_exec(chars: &Vec<char>) -> (r: Vec<String>)
    ensures
        r.deep_view() == tag_parts(chars@),
{
    let n: usize = chars.len();
    let mut parts: Vec<String> = Vec::new();
    let mut cur: Vec<char> = Vec::new();
    let mut i: usize = 0;
    proof {
        assert(chars@.skip(0) =~= chars@);
        assert(parts.deep_view() =~= Seq::<Seq<char>>::empty());
    }
    while i < n
        invariant
            i <= n,
            n == chars@.len(),
            tag_parts_acc(chars@.skip(i as int), cur@, parts.deep_view()) == tag_parts(chars@),
        decreases n - i,
    {
        let c = chars[i];
        proof {
            assert(chars@.skip(i as int).skip(1) =~= chars@.skip(i + 1));
        }
        let sep = c == ',' || c == ';' || crate::strutil::whitespace_char(c);
        if sep {
            if cur.len() > 0 {
                let piece = chars_to_string(&cur);
                let ghost pre = parts;
                let ghost cur0 = cur@;
                parts.push(piece);
                proof {
                    lemma_push_deep_view(&pre, &parts, parts@.last());
                    assert(parts.deep_view() == pre.deep_view().push(cur0));
                }
                cur = Vec::new();
            } else {
                proof {
                    assert(cur@ =~= Seq::<char>::empty());
                }
            }
        } else {
            cur.push(c);
        }
        i = i + 1;
    }
    proof {
        assert(chars@.skip(n as int) =~= Seq::<char>::empty());
    }
    if cur.len() > 0 {
        let piece = chars_to_string(&cur);
        let ghost pre = parts;
        let ghost cur0 = cur@;
        parts.push(piece);
        proof {
            lemma_push_deep_view(&pre, &parts, parts@.last());
            assert(parts.deep_view() == pre.deep_view().push(cur0));
        }
    }
    parts
}

fn dep_parts_exec(chars: &Vec<char>) -> (r: Vec<String>)
    ensures
        r.deep_view() == dep_parts(chars@),
{
    let all = tag_parts_exec(chars);
    let n: usize = all.len();
    let mut out: Vec<String> = Vec::new();
    let ghost adv = all.deep_view();
    let mut i: usize = 0;
    proof {
        assert(adv.take(0) =~= Seq::<Seq<char>>::empty());
        assert(out.deep_view() =~= adv.take(0).filter(
            |p: Seq<char>| p != "无"@ && p != "未指定"@,
        ));
    }
    while i < n
        invariant
            i <= n,
            n == all@.len(),
            adv == all.deep_view(),
            out.deep_view() == adv.take(i as int).filter(
                |p: Seq<char>| p != "无"@ && p != "未指定"@,
            ),
        decreases n - i,
    {
        proof {
            assert(adv[i as int] == all@[i as int]@);
            assert(adv.take(i + 1).drop_last() =~= adv.take(i as int));
            assert(adv.take(i + 1).last() == adv[i as int]);
        }
        let keep = !(str_eq(all[i].as_str(), "无") || str_eq(all[i].as_str(), "未指定"));
        if keep {
            let ghost pre = out;
            out.push(all[i].clone());
            proof {
                lemma_push_deep_view(&pre, &out, out@.last());
            }
        }
        proof {
            reveal(Seq::filter);
            assert(adv.take(i + 1).filter(|p: Seq<char>| p != "无"@ && p != "未指定"@)
                =~= if adv[i as int] != "无"@ && adv[i as int] != "未指定"@ {
                adv.take(i as int).filter(|p: Seq<char>| p != "无"@ && p != "未指定"@).push(
                    adv[i as int],
                )
            } else {
                adv.take(i as int).filter(|p: Seq<char>| p != "无"@ && p != "未指定"@)
            });
        }
        i = i + 1;
    }
    proof {
        assert(adv.take(n as int) =~= adv);
    }
    out
}

/// A character trimmed off the ends of a dependency bullet line.
pub open spec fn mark_char(c: char) -> bool {
    c == '-' || c == '*' || is_ws_char(c)
}

/// The text with bullet markers and whitespace removed from both ends.
pub open spec fn trim_marks_start(s: Seq<char>) -> Seq<char>
    decreases s.len(),
{
    if s.len() > 0 && mark_char(s[0]) {
        trim_marks_start(s.skip(1))
    } else {
        s
    }
}

/// The tail half of bullet trimming.
pub open spec fn trim_marks_end(s: Seq<char>) -> Seq<char>
    decreases s.len(),
{
    if s.len() > 0 && mark_char(s.last()) {
        trim_marks_end(s.drop_last())
    } else {
        s
    }
}

/// Both ends trimmed of bullet markers and whitespace.
pub open spec fn trim_marks(s: Seq<char>) -> Seq<char> {
    trim_marks_end(trim_marks_start(s))
}

fn mark_char_exec(c: char) -> (r: bool)
    ensures
        r == mark_char(c),
{
    c == '-' || c == '*' || crate::strutil::whitespace_char(c)
}

fn trim_marks_exec(v: &Vec<char>) -> (r: Vec<char>)
    ensures
        r@ == trim_marks(v@),
{
    let n: usize = v.len();
    let mut start: usize = 0;
    proof {
        assert(v@.skip(0) =~= v@);
    }
    while start < n && mark_char_exec(v[start])
        invariant
            start <= n,
            n == v@.len(),
            trim_marks_start(v@) == trim_marks_start(v@.skip(start as int)),
        decreases n - start,
    {
        proof {
            assert(v@.skip(start as int).skip(1) =~= v@.skip(start + 1));
        }
        start = start + 1;
    }
    let ghost t = v@.skip(start as int);
    proof {
        assert(trim_marks_start(v@) == t);
    }
    let mut end: usize = n;
    proof {
        assert(t.subrange(0, (n - start) as int) =~= t);
    }
    while end > start && mark_char_exec(v[end - 1])
        invariant
            start <= end <= n,
            n == v@.len(),
            t == v@.skip(start as int),
            trim_marks_end(t) == trim_marks_end(t.subrange(0, end - start as int)),
        decreases end,
    {
        proof {
            let e = end - start as int;
            assert(t.subrange(0, e).last() == v@[end - 1]);
            assert(t.subrange(0, e).drop_last() =~= t.subrange(0, e - 1));
        }
        end = end - 1;
    }
    proof {
        let e = end - start as int;
        if e > 0 {
            assert(t.subrange(0, e).last() == v@[end - 1]);
        }
        assert(trim_marks_end(t.subrange(0, e)) == t.subrange(0, e));
    }
    let out = subrange_chars(v, start, end);
    proof {
        assert(v@.subrange(start as int, end as int) =~= t.subrange(0, end - start as int));
    }
    out
}

/// A section body extended by one more line.
pub open spec fn append_text(old_text: Option<Seq<char>>, t: Seq<char>) -> Seq<char> {
    let s = match old_text {
        Some(x) => x,
        None => Seq::empty(),
    };
    if s.len() > 0 {
        s + seq!['\n'] + t
    } else {
        t
    }
}

/// The state after one `key: value` line.
pub open spec fn apply_key(st: DetailsState, k: FieldKey, val: Seq<char>) -> DetailsState {
    match k {
        FieldKey::KName => DetailsState { name: Some(val), ..st },
        FieldKey::KId => DetailsState { id: Some(val), ..st },
        FieldKey::KVersion => DetailsState { version: Some(val), ..st },
        FieldKey::KSource => DetailsState { source: Some(val), ..st },
        FieldKey::KPublisher => DetailsState { publisher: Some(val), ..st },
        FieldKey::KAuthor => DetailsState { author: Some(val), ..st },
        FieldKey::KHomepage => DetailsState { homepage: Some(val), ..st },
        FieldKey::KLicense => DetailsState { license: Some(val), ..st },
        FieldKey::KDescription => DetailsState { description: Some(val), ..st },
        FieldKey::KMoniker => DetailsState { moniker: Some(val), ..st },
        FieldKey::KTags => {
            if tag_parts(val).len() > 0 {
                DetailsState { tags: Some(tag_parts(val)), ..st }
            } else {
                st
            }
        },
        FieldKey::KManifest => DetailsState { manifest: Some(val), ..st },
        FieldKey::KInstallerType => DetailsState { installer_type: Some(val), ..st },
        FieldKey::KDownloadUrl => DetailsState { download_url: Some(val), ..st },
        FieldKey::KSha256 => DetailsState { sha256: Some(val), ..st },
        FieldKey::KSize => DetailsState { size: Some(val), ..st },
        FieldKey::KArchitecture => DetailsState { architecture: Some(val), ..st },
        FieldKey::KInstallerLocale => DetailsState { installer_locale: Some(val), ..st },
        FieldKey::KReleaseNotes => DetailsState { release_notes: Some(val), ..st },
        FieldKey::KReleaseNotesUrl => DetailsState { release_notes_url: Some(val), ..st },
        FieldKey::KDependencies => {
            if dep_parts(val).len() > 0 {
                DetailsState { dependencies: Some(dep_parts(val)), ..st }
            } else {
                st
            }
        },
        FieldKey::KNone => st,
    }
}

/// The section a key line leaves active.
pub open spec fn section_after(k: FieldKey) -> DetailSection {
    match k {
        FieldKey::KDescription => DetailSection::InDescription,
        FieldKey::KReleaseNotes => DetailSection::InReleaseNotes,
        FieldKey::KDependencies => DetailSection::InDependencies,
        _ => DetailSection::NoActive,
    }
}

/// The state after one continuation line of the active section.
pub open spec fn apply_section(st: DetailsState, sec: DetailSection, t: Seq<char>) -> DetailsState {
    match sec {
        DetailSection::InDescription => DetailsState {
            description: Some(append_text(st.description, t)),
            ..st
        },
        DetailSection::InReleaseNotes => DetailsState {
            release_notes: Some(append_text(st.release_notes, t)),
            ..st
        },
        DetailSection::InDependencies => {
            let tok = trim_marks(t);
            if tok.len() > 0 {
                let old_list = match st.dependencies {
                    Some(l) => l,
                    None => Seq::empty(),
                };
                DetailsState { dependencies: Some(old_list.push(tok)), ..st }
            } else {
                st
            }
        },
        DetailSection::NoActive => st,
    }
}

/// One line of the detail text applied to the state.
pub open spec fn details_step(st: DetailsState, sec: DetailSection, line: Seq<char>) -> (
    DetailsState,
    DetailSection,
) {
    let t = trim_spec(line);
    if t.len() == 0 {
        (st, sec)
    } else {
        let pc = find_sub(t, seq![':']);
        let pf = find_sub(t, seq!['：']);
        if pc >= 0 || pf >= 0 {
            let p = if pc >= 0 {
                pc
            } else {
                pf
            };
            let key = trim_spec(t.take(p));
            let val = trim_spec(t.skip(p + 1));
            let k = norm_key_spec(lower_of(key));
            (apply_key(st, k, val), section_after(k))
        } else {
            (apply_section(st, sec, t), sec)
        }
    }
}

/// All lines folded over the state.
pub open spec fn details_fold(lines: Seq<Seq<char>>, st: DetailsState, sec: DetailSection) -> (
    DetailsState,
    DetailSection,
)
    decreases lines.len(),
{
    if lines.len() == 0 {
        (st, sec)
    } else {
        let next = details_step(st, sec, lines[0]);
        details_fold(lines.skip(1), next.0, next.1)
    }
}

/// The state a detail text parses to.
pub open spec fn parse_details_spec(out: Seq<char>) -> DetailsState {
    details_fold(lines_of(out), init_details(), DetailSection::NoActive).0
}

/// The record fields agree with the mathematical state.
pub open spec fn matches_state(d: ShowDetails, v: DetailsState) -> bool {
    &&& d.name.deep_view() == v.name
    &&& d.id.deep_view() == v.id
    &&& d.version.deep_view() == v.version
    &&& d.source.deep_view() == v.source
    &&& d.publisher.deep_view() == v.publisher
    &&& d.author.deep_view() == v.author
    &&& d.homepage.deep_view() == v.homepage
    &&& d.license.deep_view() == v.license
    &&& d.description.deep_view() == v.description
    &&& d.moniker.deep_view() == v.moniker
    &&& d.tags.deep_view() == v.tags
    &&& d.manifest.deep_view() == v.manifest
    &&& d.installer_type.deep_view() == v.installer_type
    &&& d.installer_locale.deep_view() == v.installer_locale
    &&& d.download_url.deep_view() == v.download_url
    &&& d.sha256.deep_view() == v.sha256
    &&& d.size.deep_view() == v.size
    &&& d.architecture.deep_view() == v.architecture
    &&& d.dependencies.deep_view() == v.dependencies
    &&& d.release_notes.deep_view() == v.release_notes
    &&& d.release_notes_url.deep_view() == v.release_notes_url
}

fn find_char_sub(v: &Vec<char>, c: char) -> (r: Option<usize>)
    ensures
        r matches Some(k) ==> find_sub(v@, seq![c]) == k && k < v@.len(),
        r is None ==> find_sub(v@, seq![c]) == -1,
{
    match find_char(v, c) {
        Some(k) => {
            proof {
                assert(v@.subrange(k as int, k + seq![c].len()) =~= seq![c]);
                assert forall|t: int| 0 <= t < k implies #[trigger] v@.subrange(
                    t,
                    t + seq![c].len(),
                ) != seq![c] by {
                    assert(v@.subrange(t, t + 1)[0] == v@[t]);
                }
                crate::strutil::lemma_find_sub_at(v@, seq![c], k as int);
            }
            Some(k)
        },
        None => {
            proof {
                assert forall|t: int| 0 <= t && t + seq![c].len() <= v@.len()
                    implies #[trigger] v@.subrange(t, t + seq![c].len()) != seq![c] by {
                    assert(v@.subrange(t, t + 1)[0] == v@[t]);
                }
                crate::strutil::lemma_find_sub_none(v@, seq![c]);
            }
            None
        },
    }
}

/// Parses the key-value detail text.  The raw text is preserved in the
/// record; the installed and available versions are not part of this
/// output and stay empty.
pub fn parse_show_details(out: &str) -> (r: ShowDetails)
    ensures
        matches_state(r, parse_details_spec(out@)),
        r.installed_version is None,
        r.available_version is None,
        r.raw_details matches Some(x) && x@ == out@,
{
    let lines = split_lines(out);
    let n: usize = lines.len();
    let mut d = ShowDetails {
        name: None,
        id: None,
        version: None,
        source: None,
        publisher: None,
        author: None,
        homepage: None,
        license: None,
        description: None,
        moniker: None,
        tags: None,
        manifest: None,
        installer_type: None,
        installer_locale: None,
        download_url: None,
        sha256: None,
        size: None,
        architecture: None,
        installed_version: None,
        available_version: None,
        dependencies: None,
        release_notes: None,
        release_notes_url: None,
        raw_details: Some(out.to_owned()),
    };
    let mut section = DetailSection::NoActive;
    let ghost mut gst: DetailsState = init_details();
    let mut i: usize = 0;
    proof {
        assert(lines.deep_view().skip(0) =~= lines.deep_view());
    }
    while i < n
        invariant
            i <= n,
            n == lines@.len(),
            lines.deep_view() == lines_of(out@),
            matches_state(d, gst),
            d.installed_version is None,
            d.available_version is None,
            d.raw_details matches Some(x) && x@ == out@,
            details_fold(lines.deep_view().skip(i as int), gst, section) == details_fold(
                lines_of(out@),
                init_details(),
                DetailSection::NoActive,
            ),
        decreases n - i,
    {
        let ghost ldv = lines.deep_view();
        proof {
            assert(ldv.skip(i as int).skip(1) =~= ldv.skip(i + 1));
            assert(ldv.skip(i as int)[0] == ldv[i as int]);
            assert(ldv[i as int] == lines@[i as int]@);
        }
        let line_chars = str_to_chars(lines[i].as_str());
        let t = trim_chars(&line_chars);
        let tn: usize = t.len();
        let ghost step = details_step(gst, section, ldv[i as int]);
        if tn == 0 {
            i = i + 1;
            continue;
        }
        let pc = find_char_sub(&t, ':');
        let p: Option<usize> = match pc {
            Some(x) => Some(x),
            None => find_char_sub(&t, '：'),
        };
        match p {
            Some(pos) => {
                let key_raw = subrange_chars(&t, 0, pos);
                let key_t = trim_chars(&key_raw);
                let key_s = chars_to_string(&key_t);
                let val_raw = subrange_chars(&t, pos + 1, tn);
                let val_t = trim_chars(&val_raw);
                let val_s = chars_to_string(&val_t);
                proof {
                    assert(t@.subrange(0, pos as int) =~= t@.take(pos as int));
                    assert(t@.subrange(pos + 1, t@.len() as int) =~= t@.skip(pos + 1));
                }
                let low_key = to_lower(key_s.as_str());
                let k = norm_key(low_key.as_str());
                let ghost gval = trim_spec(t@.skip(pos + 1));
                match k {
                    FieldKey::KName => {
                        d.name = Some(val_s);
                    },
                    FieldKey::KId => {
                        d.id = Some(val_s);
                    },
                    FieldKey::KVersion => {
                        d.version = Some(val_s);
                    },
                    FieldKey::KSource => {
                        d.source = Some(val_s);
                    },
                    FieldKey::KPublisher => {
                        d.publisher = Some(val_s);
                    },
                    FieldKey::KAuthor => {
                        d.author = Some(val_s);
                    },
                    FieldKey::KHomepage => {
                        d.homepage = Some(val_s);
                    },
                    FieldKey::KLicense => {
                        d.license = Some(val_s);
                    },
                    FieldKey::KDescription => {
                        d.description = Some(val_s);
                    },
                    FieldKey::KMoniker => {
                        d.moniker = Some(val_s);
                    },
                    FieldKey::KTags => {
                        let parts = tag_parts_exec(&val_t);
                        if parts.len() > 0 {
                            d.tags = Some(parts);
                        }
                    },
                    FieldKey::KManifest => {
                        d.manifest = Some(val_s);
                    },
                    FieldKey::KInstallerType => {
                        d.installer_type = Some(val_s);
                    },
                    FieldKey::KDownloadUrl => {
                        d.download_url = Some(val_s);
                    },
                    FieldKey::KSha256 => {
                        d.sha256 = Some(val_s);
                    },
                    FieldKey::KSize => {
                        d.size = Some(val_s);
                    },
                    FieldKey::KArchitecture => {
                        d.architecture = Some(val_s);
                    },
                    FieldKey::KInstallerLocale => {
                        d.installer_locale = Some(val_s);
                    },
                    FieldKey::KReleaseNotes => {
                        d.release_notes = Some(val_s);
                    },
                    FieldKey::KReleaseNotesUrl => {
                        d.release_notes_url = Some(val_s);
                    },
                    FieldKey::KDependencies => {
                        let parts = dep_parts_exec(&val_t);
                        if parts.len() > 0 {
                            d.dependencies = Some(parts);
                        }
                    },
                    FieldKey::KNone => {},
                }
                section = match k {
                    FieldKey::KDescription => DetailSection::InDescription,
                    FieldKey::KReleaseNotes => DetailSection::InReleaseNotes,
                    FieldKey::KDependencies => DetailSection::InDependencies,
                    _ => DetailSection::NoActive,
                };
                proof {
                    gst = apply_key(gst, norm_key_spec(lower_of(trim_spec(t@.take(pos as int)))), gval);
                    assert(matches_state(d, gst));
                }
            },
            None => {
                match section {
                    DetailSection::InDescription => {
                        let ghost old_text = gst.description;
                        let mut s: String = match d.description.take() {
                            Some(x) => x,
                            None => String::new(),
                        };
                        if s.as_str().unicode_len() > 0 {
                            crate::strutil::push_char(&mut s, '\n');
                            let ts = chars_to_string(&t);
                            s.append(ts.as_str());
                            proof {
                                assert(s@ =~= append_text(old_text, t@));
                            }
                        } else {
                            s = chars_to_string(&t);
                            proof {
                                assert(s@ =~= append_text(old_text, t@));
                            }
                        }
                        d.description = Some(s);
                    },
                    DetailSection::InReleaseNotes => {
                        let ghost old_text = gst.release_notes;
                        let mut s: String = match d.release_notes.take() {
                            Some(x) => x,
                            None => String::new(),
                        };
                        if s.as_str().unicode_len() > 0 {
                            crate::strutil::push_char(&mut s, '\n');
                            let ts = chars_to_string(&t);
                            s.append(ts.as_str());
                            proof {
                                assert(s@ =~= append_text(old_text, t@));
                            }
                        } else {
                            s = chars_to_string(&t);
                            proof {
                                assert(s@ =~= append_text(old_text, t@));
                            }
                        }
                        d.release_notes = Some(s);
                    },
                    DetailSection::InDependencies => {
                        let tok = trim_marks_exec(&t);
                        if tok.len() > 0 {
                            let ghost old_list: Seq<Seq<char>> = match gst.dependencies {
                                Some(l) => l,
                                None => Seq::empty(),
                            };
                            let mut list: Vec<String> = match d.dependencies.take() {
                                Some(x) => x,
                                None => Vec::new(),
                            };
                            proof {
                                assert(list.deep_view() =~= old_list);
                            }
                            let ghost pre_list = list;
                            list.push(chars_to_string(&tok));
                            proof {
                                lemma_push_deep_view(&pre_list, &list, list@.last());
                                assert(list.deep_view() =~= old_list.push(trim_marks(t@)));
                            }
                            d.dependencies = Some(list);
                        }
                    },
                    DetailSection::NoActive => {},
                }
                proof {
                    gst = apply_section(gst, section, trim_spec(ldv[i as int]));
                    assert(matches_state(d, gst));
                }
            },
        }
        i = i + 1;
    }
    proof {
        assert(lines.deep_view().skip(n as int) =~= Seq::<Seq<char>>::empty());
    }
    d
}

} // verus!
