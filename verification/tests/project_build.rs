//! Project build decisions, relative paths and directory-walk decisions.
use pleme_linker::declarations::{declaration_entry_action, ts_copy_entry_action, EntryAction};
use pleme_linker::cli::{regen_resolve_args, RegenArgs};
use pleme_linker::paths::diff_paths;
use pleme_linker::project::{
    build_mode, is_css_file, is_js_source_file, is_skipped_copy_entry, is_skipped_workspace_entry,
    library_extra_files, link_target_exec, project_kind, sibling_name_exec, workspace_safe_name_exec,
    wrapper_script_exec, BuildMode,
};
use pleme_linker::text::escape_nix_string;

#[test]
fn test_build_mode() {
    assert_eq!(build_mode(true, true, false, true, false), BuildMode::WebOxc { main_tsx: true });
    assert_eq!(build_mode(true, false, true, false, false), BuildMode::WebOxc { main_tsx: false });
    assert_eq!(build_mode(true, true, true, false, true), BuildMode::WebVite);
    assert_eq!(build_mode(true, false, false, true, false), BuildMode::TypeScript);
    assert_eq!(build_mode(false, true, false, false, false), BuildMode::JavaScript);
    assert_eq!(project_kind(true), "TypeScript");
    assert_eq!(project_kind(false), "JavaScript");
}

#[test]
fn test_workspace_names() {
    assert_eq!(workspace_safe_name_exec("@curupira/shared"), "curupira-shared");
    assert_eq!(workspace_safe_name_exec("plain"), "plain");
    assert_eq!(link_target_exec("@scope/pkg"), (Some("@scope".to_string()), "pkg".to_string()));
    assert_eq!(link_target_exec("pkg"), (None, "pkg".to_string()));
    assert_eq!(link_target_exec("@noslash"), (None, "@noslash".to_string()));
    assert_eq!(sibling_name_exec("@scope/pkg"), "pkg");
    assert_eq!(sibling_name_exec("pkg"), "pkg");
}

#[test]
fn test_wrapper_script() {
    assert_eq!(
        wrapper_script_exec("/nix/store/node/bin/node", "/out/lib/dist/cli.js"),
        "#!/usr/bin/env bash\nexec /nix/store/node/bin/node /out/lib/dist/cli.js \"$@\"\n"
    );
}

#[test]
fn test_copied_file_kinds() {
    assert!(is_js_source_file("src/index.js"));
    assert!(is_js_source_file("src/utils.mjs"));
    assert!(is_js_source_file("src/config.cjs"));
    assert!(is_js_source_file("src/data.json"));
    assert!(!is_js_source_file("src/style.css"));
    assert!(!is_js_source_file("src/readme.md"));
    assert!(!is_js_source_file("src/main.ts"));
    assert!(is_css_file("src/a.css"));
    assert!(!is_css_file("src/a.scss"));
    assert!(is_skipped_copy_entry("node_modules"));
    assert!(is_skipped_copy_entry(".turbo"));
    assert!(!is_skipped_copy_entry("src"));
    assert!(is_skipped_workspace_entry(".env"));
    assert!(is_skipped_workspace_entry("coverage"));
    assert!(!is_skipped_workspace_entry("lib"));
    assert_eq!(library_extra_files(), vec!["README.md", "tsconfig.json", "tsconfig.build.json"]);
}

#[test]
fn test_diff_paths() {
    assert_eq!(diff_paths("/a/b/c", "/a/b"), Some("c".to_string()));
    assert_eq!(diff_paths("/a/b", "/a/b/c/d"), Some("../..".to_string()));
    assert_eq!(diff_paths("/a/x/y", "/a/b"), Some("../x/y".to_string()));
    assert_eq!(diff_paths("/a/b", "/a/b"), Some(".".to_string()));
    assert_eq!(diff_paths("/a//b/./c/", "/a/b"), Some("c".to_string()));
}

#[test]
fn test_escape_nix_string() {
    assert_eq!(escape_nix_string(r#"a"b\c$d"#), r#"a\"b\\c\$d"#);
    assert_eq!(escape_nix_string("plain"), "plain");
}

#[test]
fn test_walk_actions() {
    assert_eq!(declaration_entry_action("node_modules", true, false, ""), EntryAction::Skip);
    assert_eq!(declaration_entry_action("lib", true, false, ""), EntryAction::Descend);
    assert_eq!(declaration_entry_action("types.d.ts", false, true, "ts"), EntryAction::Copy);
    assert_eq!(declaration_entry_action("index.ts", false, true, "ts"), EntryAction::Generate);
    assert_eq!(declaration_entry_action("App.tsx", false, true, "tsx"), EntryAction::Generate);
    assert_eq!(declaration_entry_action("a.test.ts", false, true, "ts"), EntryAction::Skip);
    assert_eq!(declaration_entry_action("a.js", false, true, "js"), EntryAction::Skip);
    assert_eq!(ts_copy_entry_action("a.css", false, true, "css"), EntryAction::Copy);
    assert_eq!(ts_copy_entry_action("a.md", false, true, "md"), EntryAction::Skip);
    assert_eq!(ts_copy_entry_action("__tests__", true, false, ""), EntryAction::Skip);
}

#[test]
fn test_regen_resolve_args() {
    let args = RegenArgs { project_root: "/work/web".to_string(), crate2nix: "crate2nix".to_string() };
    let r = regen_resolve_args(&args);
    assert_eq!(r.project, "/work/web");
    assert_eq!(r.output.as_deref(), Some("/work/web/deps.nix"));
    assert!(r.include_dev);
    assert_eq!(r.registry, "https://registry.npmjs.org");
    assert_eq!(r.platform, "linux");
}

#[test]
fn test_nix_escape_round_trip() {
    fn unescape(t: &str) -> String {
        let mut out = String::new();
        let mut it = t.chars();
        while let Some(c) = it.next() {
            if c == '\\' {
                match it.next() {
                    Some(n) => out.push(n),
                    None => out.push(c),
                }
            } else {
                out.push(c);
            }
        }
        out
    }
    for s in [r#"a"b$c\d"#, "plain", r#"\\""#, "${x}"] {
        let e = escape_nix_string(s);
        assert_eq!(unescape(&e), s);
        let specials = s.chars().filter(|c| *c == '\\' || *c == '"' || *c == '$').count();
        assert_eq!(e.chars().count(), s.chars().count() + specials);
    }
}
