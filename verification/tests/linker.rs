//! node_modules layout: store names, hoisting, nested links and binaries.
use pleme_linker::cli::BuildNodeModulesArgs;
use pleme_linker::linker::{
    bin_wrapper_exec, hoist_plan, nested_links, parse_dep_spec, run_build_node_modules, store_name_exec,
    strip_dot_slash_exec,
};
use pleme_linker::project::{dist_to_src_exec, export_target_for_source};
use pleme_linker::types::BuildManifestEntry;

fn entry(pname: &str, version: &str, deps: &[&str]) -> BuildManifestEntry {
    BuildManifestEntry {
        pname: pname.to_string(),
        version: version.to_string(),
        tarball: format!("/nix/store/{}-{}.tgz", pname, version),
        dependencies: deps.iter().map(|d| d.to_string()).collect(),
        has_bin: false,
    }
}

#[test]
fn test_store_name() {
    assert_eq!(store_name_exec("@types/node", "20.1.0"), "@types+node@20.1.0");
    assert_eq!(store_name_exec("react", "18.3.1"), "react@18.3.1");
}

#[test]
fn test_parse_dep_spec() {
    assert_eq!(parse_dep_spec("@scope/name@1.2.3"), ("@scope/name".to_string(), "1.2.3".to_string()));
    assert_eq!(parse_dep_spec("name@1.2.3"), ("name".to_string(), "1.2.3".to_string()));
    assert_eq!(parse_dep_spec("name"), ("name".to_string(), "*".to_string()));
    assert_eq!(parse_dep_spec("@scope/name"), ("@scope/name".to_string(), "*".to_string()));
}

#[test]
fn test_hoisting_prefers_root_dependencies() {
    let packages = vec![
        entry("typescript", "4.9.5", &[]),
        entry("typescript", "5.9.3", &[]),
        entry("tool", "1.0.0", &["typescript@4.9.5"]),
    ];
    let roots = vec!["typescript@5.9.3".to_string(), "missing@1.0.0".to_string()];
    let hoisted = hoist_plan(&packages, &roots);
    assert_eq!(
        hoisted,
        vec![
            ("typescript".to_string(), "typescript@5.9.3".to_string()),
            ("tool".to_string(), "tool@1.0.0".to_string()),
        ]
    );
    let nested = nested_links(&packages, &hoisted);
    assert_eq!(
        nested,
        vec![("tool@1.0.0".to_string(), "typescript".to_string(), "typescript@4.9.5".to_string())]
    );
}

#[test]
fn test_hoisting_first_listed_wins_without_root() {
    let packages = vec![entry("a", "1.0.0", &[]), entry("a", "2.0.0", &[]), entry("b", "1.0.0", &["a@1.0.0", "c@1.0.0"])];
    let hoisted = hoist_plan(&packages, &vec![]);
    assert_eq!(hoisted[0], ("a".to_string(), "a@1.0.0".to_string()));
    // a@1.0.0 is hoisted already; c was never extracted
    assert!(nested_links(&packages, &hoisted).is_empty());
}

#[test]
fn test_bin_entries() {
    assert_eq!(strip_dot_slash_exec("./bin/cli.js"), "bin/cli.js");
    assert_eq!(strip_dot_slash_exec("././x"), "x");
    assert_eq!(strip_dot_slash_exec("bin/x"), "bin/x");
    assert_eq!(bin_wrapper_exec("/bin/node", "/store/p/bin/cli.js"), "#!/bin/sh\nexec /bin/node /store/p/bin/cli.js \"$@\"\n");
}

#[test]
fn test_run_build_node_modules_args() {
    let a = run_build_node_modules(BuildNodeModulesArgs {
        manifest: "m.json".to_string(),
        output: "out".to_string(),
        node_bin: "node".to_string(),
    });
    assert_eq!(a.manifest, "m.json");
    assert_eq!(a.output, "out");
    assert_eq!(a.node_bin, "node");
}

#[test]
fn test_package_json_source_paths() {
    assert_eq!(dist_to_src_exec("./dist/index.js"), "./src/index.ts");
    assert_eq!(dist_to_src_exec("./dist/index.d.ts"), "./src/index.ts");
    assert_eq!(export_target_for_source("./dist/a.js"), Some("./src/a.ts".to_string()));
    assert_eq!(export_target_for_source("./lib/a.js"), None);
}
