use winget_tasks::command::{
    admin_command_line, build_stream_command, default_exec_flags_for, display_command,
    resolve_download_dir, should_remove_artifact, BuildError, CommandSpec, ExecutionMode,
};

fn spec_for(verb: &str, id: &str) -> CommandSpec {
    CommandSpec {
        verb: verb.to_string(),
        id: id.to_string(),
        flags: Vec::new(),
        source: None,
        proxy: None,
        dir: None,
        keep_artifact: false,
    }
}

#[test]
fn install_defaults_build_the_documented_vector() {
    let built = build_stream_command(&spec_for("install", "Foo.Bar"), "C:\\Users\\u").unwrap();
    let expected: Vec<String> = [
        "install",
        "--id",
        "Foo.Bar",
        "--exact",
        "--source",
        "winget",
        "--accept-source-agreements",
        "--accept-package-agreements",
        "--disable-interactivity",
        "--silent",
        "--include-unknown",
        "--force",
    ]
    .iter()
    .map(|s| s.to_string())
    .collect();
    assert_eq!(built.args, expected);
    assert_eq!(built.mode, ExecutionMode::Hidden);
}

#[test]
fn download_with_custom_source_strips_the_default_pair() {
    let mut c = spec_for("download", "Foo.Bar");
    c.source = Some("custom".to_string());
    let built = build_stream_command(&c, "C:\\Users\\u").unwrap();
    let args = &built.args;
    // the default source pair is gone and `--source custom` appears once
    let source_count = args.iter().filter(|a| a.as_str() == "--source").count();
    assert_eq!(source_count, 1);
    let pos = args.iter().position(|a| a.as_str() == "--source").unwrap();
    assert_eq!(args[pos + 1], "custom");
    assert!(!args.iter().any(|a| a.as_str() == "winget"));
    // the download directory pair always comes last
    assert_eq!(args[args.len() - 2], "--download-directory");
    assert_eq!(args[args.len() - 1], "C:\\Users\\u\\Downloads\\winget-downloads");
}

#[test]
fn download_keeps_explicit_directory() {
    let mut c = spec_for("download", "Foo.Bar");
    c.dir = Some("D:\\out".to_string());
    let built = build_stream_command(&c, "C:\\Users\\u").unwrap();
    assert_eq!(built.args[built.args.len() - 1], "D:\\out");
}

#[test]
fn blank_target_is_rejected() {
    let r = build_stream_command(&spec_for("install", "   "), "h");
    assert_eq!(r.unwrap_err(), BuildError::BlankTarget);
}

#[test]
fn interactive_flag_selects_interactive_mode() {
    let mut c = spec_for("upgrade", "Foo.Bar");
    c.flags = vec!["-i".to_string()];
    let built = build_stream_command(&c, "h").unwrap();
    assert_eq!(built.mode, ExecutionMode::Interactive);
    let (exe, argv) = built.invocation();
    assert_eq!(exe, "cmd");
    assert_eq!(argv[0], "/C");
    assert_eq!(argv[1], "chcp 65001>nul & winget upgrade --id Foo.Bar -i");
}

#[test]
fn hidden_invocation_runs_the_tool_directly() {
    let built = build_stream_command(&spec_for("uninstall", "Foo.Bar"), "h").unwrap();
    let (exe, argv) = built.invocation();
    assert_eq!(exe, "winget");
    assert_eq!(
        argv,
        vec![
            "uninstall".to_string(),
            "--id".to_string(),
            "Foo.Bar".to_string(),
            "--exact".to_string(),
            "--accept-source-agreements".to_string(),
        ]
    );
}

#[test]
fn default_flags_per_verb() {
    assert_eq!(default_exec_flags_for("uninstall"), vec!["--exact", "--accept-source-agreements"]);
    assert_eq!(default_exec_flags_for("download").len(), 6);
    assert_eq!(default_exec_flags_for("install").len(), 9);
    assert_eq!(default_exec_flags_for("upgrade").len(), 9);
    assert!(default_exec_flags_for("list").is_empty());
}

#[test]
fn display_command_joins_with_spaces() {
    let args = vec!["a".to_string(), "b".to_string()];
    assert_eq!(display_command("winget", &args), "winget a b");
}

#[test]
fn proxy_is_passed_through_when_non_blank() {
    let mut c = spec_for("upgrade", "Foo.Bar");
    c.flags = vec!["--silent".to_string()];
    c.proxy = Some("http://proxy:8080".to_string());
    let built = build_stream_command(&c, "h").unwrap();
    assert_eq!(
        built.args,
        vec![
            "upgrade".to_string(),
            "--id".to_string(),
            "Foo.Bar".to_string(),
            "--silent".to_string(),
            "--proxy".to_string(),
            "http://proxy:8080".to_string(),
        ]
    );
}

#[test]
fn resolve_dir_defaults_under_downloads() {
    assert_eq!(
        resolve_download_dir(&None, "C:\\Users\\me"),
        "C:\\Users\\me\\Downloads\\winget-downloads"
    );
    assert_eq!(resolve_download_dir(&Some("  ".to_string()), "h"), "h\\Downloads\\winget-downloads");
    assert_eq!(resolve_download_dir(&Some("D:\\x".to_string()), "h"), "D:\\x");
}

#[test]
fn admin_line_escapes_single_quotes() {
    let args = vec!["settings".to_string(), "it's".to_string()];
    assert_eq!(
        admin_command_line(&args),
        "Start-Process winget -ArgumentList 'settings it''s' -Verb RunAs -Wait -WindowStyle Hidden"
    );
}

#[test]
fn artifact_cleanup_matches_id_or_marker() {
    assert!(should_remove_artifact("Foo.Bar.yaml", "foo.bar", false));
    assert!(should_remove_artifact("FOO.BAR.yaml", "foo.bar", false));
    assert!(should_remove_artifact("some-manifest-file.yaml", "zzz", false));
    assert!(!should_remove_artifact("Foo.Bar.yaml", "foo.bar", true));
    assert!(!should_remove_artifact("readme.txt", "foo.bar", false));
    assert!(!should_remove_artifact("unrelated.yaml", "foo.bar", false));
    assert!(!should_remove_artifact(".yaml", "foo.bar", false));
}
