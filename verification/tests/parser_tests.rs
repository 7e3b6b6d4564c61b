use winget_tasks::details::parse_show_details;
use winget_tasks::search::{match_score, match_tokens, tokens_from};
use winget_tasks::settings::{
    is_truncated, parse_features, parse_sources, settings_flag_enabled, show_args,
};
use winget_tasks::table::{get_visual_width, parse_list, parse_search_text, split_columns};

#[test]
fn visual_width_is_two_for_wide_characters() {
    assert_eq!(get_visual_width('a'), 1);
    assert_eq!(get_visual_width('名'), 2);
}

#[test]
fn split_columns_needs_two_spaces() {
    assert_eq!(split_columns("App One  1.2.3  winget"), vec!["App One", "1.2.3", "winget"]);
    assert_eq!(split_columns("single"), vec!["single"]);
    assert_eq!(split_columns(""), Vec::<String>::new());
}

#[test]
fn truncation_marker_is_the_ellipsis() {
    assert!(is_truncated("Microsoft.Visual…"));
    assert!(!is_truncated("Microsoft.VisualStudio"));
    assert!(!is_truncated(""));
}

fn table(rows: &[(&str, &str, &str, &str, &str)]) -> String {
    let mut out = String::new();
    out.push_str(&format!(
        "{:<10}{:<10}{:<10}{:<10}{}\n",
        "Name", "Id", "Version", "Available", "Source"
    ));
    out.push_str(&format!("{}\n", "-".repeat(46)));
    for (n, i, v, a, s) in rows {
        out.push_str(&format!("{:<10}{:<10}{:<10}{:<10}{}\n", n, i, v, a, s));
    }
    out
}

#[test]
fn parse_list_filters_foreign_sources_and_duplicates() {
    let text = table(&[
        ("App One", "App.One", "1.0", "2.0", "winget"),
        ("Bad App", "Bad.App", "1.0", "2.0", "msstore"),
        ("App One", "App.One", "1.0", "2.0", "winget"),
        ("App Two", "App.Two", "3.1", "", "winget"),
    ]);
    let items = parse_list(&text);
    assert_eq!(items.len(), 2);
    assert_eq!(items[0].name, "App One");
    assert_eq!(items[0].id, "App.One");
    assert_eq!(items[0].version, "1.0");
    assert_eq!(items[0].available.as_deref(), Some("2.0"));
    assert_eq!(items[0].source.as_deref(), Some("winget"));
    assert_eq!(items[1].id, "App.Two");
    assert_eq!(items[1].available, None);
}

#[test]
fn parse_list_skips_truncated_rows() {
    let text = table(&[("App One", "App.One…", "1.0", "2.0", "winget")]);
    assert!(parse_list(&text).is_empty());
}

#[test]
fn parse_list_without_separator_is_empty() {
    assert!(parse_list("no separator here\njust text\n").is_empty());
}

#[test]
fn parse_search_reads_the_match_column() {
    let mut text = String::new();
    text.push_str(&format!(
        "{:<10}{:<10}{:<10}{:<10}{}\n",
        "Name", "Id", "Version", "Match", "Source"
    ));
    text.push_str(&format!("{}\n", "-".repeat(46)));
    text.push_str(&format!(
        "{:<10}{:<10}{:<10}{:<10}{}\n",
        "App One", "App.One", "1.0", "tag: app", "winget"
    ));
    let items = parse_search_text(&text);
    assert_eq!(items.len(), 1);
    assert_eq!(items[0].name, "App One");
    assert_eq!(items[0].version.as_deref(), Some("1.0"));
    assert_eq!(items[0].matched.as_deref(), Some("tag: app"));
    assert_eq!(items[0].source.as_deref(), Some("winget"));
}

#[test]
fn parse_search_four_columns_has_no_match_field() {
    let mut text = String::new();
    text.push_str(&format!("{:<10}{:<10}{:<10}{}\n", "Name", "Id", "Version", "Source"));
    text.push_str(&format!("{}\n", "-".repeat(40)));
    text.push_str(&format!("{:<10}{:<10}{:<10}{}\n", "App One", "App.One", "1.0", "winget"));
    let items = parse_search_text(&text);
    assert_eq!(items.len(), 1);
    assert_eq!(items[0].matched, None);
}

#[test]
fn parse_sources_reads_three_column_rows() {
    let text = "Name    Argument                              Explicit\n\
                ---------------------------------------------------\n\
                winget  https://cdn.winget.microsoft.com/cache  false\n\
                odd row with more than three columns here extra\n";
    let items = parse_sources(text);
    assert_eq!(items.len(), 1);
    assert_eq!(items[0].name, "winget");
    assert_eq!(items[0].arg, "https://cdn.winget.microsoft.com/cache");
    assert_eq!(items[0].explicit, "false");
}

#[test]
fn parse_features_joins_multi_word_names() {
    let text = "Feature            Status    Property\n\
                -------------------------------------\n\
                Direct MSI Install Disabled  link\n\
                Fonts Enabled\n";
    let items = parse_features(text);
    assert_eq!(items.len(), 2);
    assert_eq!(items[0].feature, "Direct MSI Install");
    assert_eq!(items[0].status, "Disabled");
    assert_eq!(items[0].property.as_deref(), Some("link"));
    assert_eq!(items[0].link, None);
    assert_eq!(items[1].feature, "Fonts");
    assert_eq!(items[1].status, "Enabled");
    assert_eq!(items[1].property, None);
}

#[test]
fn settings_flag_detection() {
    let out = "header noise\n{\n  \"ProxyCommandLineOptions\": true,\n  \"other\": 1\n}\n";
    assert!(settings_flag_enabled(out, "ProxyCommandLineOptions"));
    let off = "{ \"ProxyCommandLineOptions\": false }";
    assert!(!settings_flag_enabled(off, "ProxyCommandLineOptions"));
    assert!(!settings_flag_enabled("{ \"x\": true }", "ProxyCommandLineOptions"));
    assert!(!settings_flag_enabled("no braces at all", "ProxyCommandLineOptions"));
}

#[test]
fn show_args_for_exact_and_truncated_ids() {
    assert_eq!(
        show_args("Foo.Bar", &None),
        vec!["show", "--id", "Foo.Bar", "--exact", "--accept-source-agreements"]
    );
    assert_eq!(
        show_args("Very.Long.Package…", &None),
        vec!["show", "--id", "Very.Long.Package", "--accept-source-agreements"]
    );
    assert_eq!(
        show_args("Foo...…", &None),
        vec!["show", "--id", "Foo", "--accept-source-agreements"]
    );
    assert_eq!(
        show_args("Foo.Bar", &Some("http://p".to_string())),
        vec!["show", "--id", "Foo.Bar", "--exact", "--accept-source-agreements", "--proxy", "http://p"]
    );
}

#[test]
fn details_parse_key_values_and_sections() {
    let text = "Name: Foo\n\
                版本: 1.2\n\
                Description: first\n\
                  second line\n\
                Tags: a, b; c\n\
                Dependencies: 无\n\
                 - dep1\n\
                Release Notes URL: http://x\n";
    let d = parse_show_details(text);
    assert_eq!(d.name.as_deref(), Some("Foo"));
    assert_eq!(d.version.as_deref(), Some("1.2"));
    assert_eq!(d.description.as_deref(), Some("first\nsecond line"));
    assert_eq!(d.tags, Some(vec!["a".to_string(), "b".to_string(), "c".to_string()]));
    assert_eq!(d.dependencies, Some(vec!["dep1".to_string()]));
    assert_eq!(d.release_notes_url.as_deref(), Some("http://x"));
    assert_eq!(d.raw_details.as_deref(), Some(text));
    assert_eq!(d.id, None);
    assert_eq!(d.installed_version, None);
}

#[test]
fn details_full_width_colon_is_understood() {
    let d = parse_show_details("描述： 说明文字\n");
    assert_eq!(d.description.as_deref(), Some("说明文字"));
}

#[test]
fn match_tokens_compares_lowercased_spaceless_text() {
    assert!(match_tokens("FOO", &vec!["foo".to_string()]));
    assert!(match_tokens("Code", &vec!["VisualStudioCode".to_string()]));
    assert!(!match_tokens("Visual Studio Code", &vec!["vs".to_string()]));
    assert!(!match_tokens("", &vec!["anything".to_string()]));
    assert!(!match_tokens("abc", &vec![]));
}

#[test]
fn match_score_rewards_whole_matches_most() {
    assert_eq!(match_score("code", &vec!["code".to_string()]), 100);
    assert_eq!(
        match_score("code", &vec!["code".to_string(), "studiocode".to_string()]),
        120
    );
    assert_eq!(match_score("notepad", &vec!["note".to_string()]), 40);
    assert_eq!(match_score("", &vec!["x".to_string()]), 0);
}

#[test]
fn tokens_from_extracts_identity_words() {
    let tokens = tokens_from("Microsoft.VisualStudioCode", "Visual Studio Code");
    assert_eq!(
        tokens,
        vec![
            "Visual Studio Code".to_string(),
            "VisualStudioCode".to_string(),
            "Visual".to_string(),
            "Studio".to_string(),
            "Code".to_string(),
            "Microsoft".to_string(),
            "VisualStudioCode".to_string(),
        ]
    );
}

#[test]
fn tokens_from_cuts_version_suffixes() {
    let tokens = tokens_from("", "Foo version 1.2");
    assert_eq!(
        tokens,
        vec![
            "Foo version 1.2".to_string(),
            "Fooversion1.2".to_string(),
            "Foo".to_string(),
            "Foo".to_string(),
        ]
    );
}
