//! Version requirements and the npm resolver's steps.
use pleme_linker::resolver::{
    finalize_dependencies, is_platform_compatible, is_satisfied, metadata_url_exec, next_batch,
    parse_npm_alias, process_batch, queue_dependency, queue_root_dependencies, record_fetch_results,
    render_deps_nix, resolve_version, ResolutionContext,
};
use pleme_linker::types::{NpmDist, NpmPackageMetadata, NpmVersionInfo, ResolvedPackage};
use pleme_linker::versions::{
    compare_versions, parse_hyphen_range, parse_space_separated_range, parse_version_req, str_less,
};
use std::cmp::Ordering;

#[test]
fn test_parse_hyphen_range() {
    // "1 - 2" should become ">=1, <=2"
    let result = parse_hyphen_range("1 - 2");
    assert!(result.is_some(), "Should parse hyphen range '1 - 2'");

    // "1.2.3 - 2.3.4" should become ">=1.2.3, <=2.3.4"
    let result = parse_hyphen_range("1.2.3 - 2.3.4");
    assert!(result.is_some(), "Should parse hyphen range '1.2.3 - 2.3.4'");

    // Not a hyphen range
    let result = parse_hyphen_range(">=1.0.0");
    assert!(result.is_none(), "Should not parse non-hyphen range");
}

#[test]
fn test_parse_space_separated_range() {
    // ">=1.0.0 <2.0.0" should become ">=1.0.0, <2.0.0"
    let result = parse_space_separated_range(">=1.0.0 <2.0.0");
    assert!(result.is_some(), "Should parse space-separated range '>=1.0.0 <2.0.0'");

    // ">=3.1.1 <6" - real example from npm packages
    let result = parse_space_separated_range(">=3.1.1 <6");
    assert!(result.is_some(), "Should parse space-separated range '>=3.1.1 <6'");

    // ">=0.5 0" - another npm format
    let result = parse_space_separated_range(">=0.5 <1");
    assert!(result.is_some(), "Should parse space-separated range '>=0.5 <1'");

    // Single constraint should not be parsed
    let result = parse_space_separated_range(">=1.0.0");
    assert!(result.is_none(), "Should not parse single constraint");
}

#[test]
fn test_parse_version_req_npm_formats() {
    // Test that parse_version_req handles the problematic npm formats

    // Hyphen range
    let result = parse_version_req("1 - 2");
    assert!(result.is_some(), "parse_version_req should handle '1 - 2'");

    // Space-separated constraints
    let result = parse_version_req(">=3.1.1 <6");
    assert!(result.is_some(), "parse_version_req should handle '>=3.1.1 <6'");

    // Standard semver (should still work)
    let result = parse_version_req("^1.0.0");
    assert!(result.is_some(), "parse_version_req should handle '^1.0.0'");

    let result = parse_version_req(">=1.0.0");
    assert!(result.is_some(), "parse_version_req should handle '>=1.0.0'");

    let result = parse_version_req("~1.0.0");
    assert!(result.is_some(), "parse_version_req should handle '~1.0.0'");
}

#[test]
fn test_parse_version_req_cleanup() {
    // x-ranges, a leading v/=, and the first of several alternatives
    assert!(parse_version_req("1.x").is_some());
    assert!(parse_version_req("v1.2.3").is_some());
    assert!(parse_version_req("=1.2.3").is_some());
    assert!(parse_version_req("^1.0.0 || ^2.0.0").is_some());
    assert!(parse_version_req("not a version").is_none());
    assert!(parse_space_separated_range(">=1.0.0 foo").is_none());
    assert!(parse_hyphen_range("a - b").is_none());
}

#[test]
fn test_compare_versions() {
    assert_eq!(compare_versions("1.2.3", "1.10.0"), Ordering::Less);
    assert_eq!(compare_versions("2.0.0", "1.9.9"), Ordering::Greater);
    assert_eq!(compare_versions("1.0.0", "1.0.0"), Ordering::Equal);
    assert_eq!(compare_versions("1.0.0-alpha", "1.0.0"), Ordering::Less);
    // not semver: compared as strings
    assert_eq!(compare_versions("abc", "abd"), Ordering::Less);
    assert!(str_less("a", "b"));
    assert!(!str_less("b", "a"));
    assert!(str_less("ab", "abc"));
}

#[test]
fn test_parse_npm_alias() {
    let a = parse_npm_alias("npm:string-width@^4.2.0").unwrap();
    assert_eq!(a.target_package, "string-width");
    assert_eq!(a.target_constraint, "^4.2.0");

    let a = parse_npm_alias("npm:@scope/pkg@1.0.0").unwrap();
    assert_eq!(a.target_package, "@scope/pkg");
    assert_eq!(a.target_constraint, "1.0.0");

    let a = parse_npm_alias("npm:@scope/pkg").unwrap();
    assert_eq!(a.target_package, "@scope/pkg");
    assert_eq!(a.target_constraint, "*");

    let a = parse_npm_alias("npm:lodash").unwrap();
    assert_eq!(a.target_package, "lodash");
    assert_eq!(a.target_constraint, "*");

    assert!(parse_npm_alias("^1.0.0").is_none());
}

fn info(name: &str, version: &str, deps: &[(&str, &str)], os: Option<Vec<&str>>) -> NpmVersionInfo {
    NpmVersionInfo {
        name: name.to_string(),
        version: version.to_string(),
        dependencies: deps.iter().map(|(a, b)| (a.to_string(), b.to_string())).collect(),
        dev_dependencies: Vec::new(),
        peer_dependencies: Vec::new(),
        optional_dependencies: Vec::new(),
        dist: NpmDist {
            tarball: format!("https://registry.example/{}-{}.tgz", name, version),
            integrity: None,
            shasum: Some("abc".to_string()),
        },
        has_bin: false,
        os: os.map(|v| v.into_iter().map(|s| s.to_string()).collect()),
        cpu: None,
    }
}

fn metadata(name: &str, versions: &[&str], latest: Option<&str>) -> NpmPackageMetadata {
    NpmPackageMetadata {
        name: name.to_string(),
        dist_tags: latest.map(|l| vec![("latest".to_string(), l.to_string())]).unwrap_or_default(),
        versions: versions.iter().map(|v| (v.to_string(), info(name, v, &[], None))).collect(),
    }
}

#[test]
fn test_is_platform_compatible() {
    assert!(is_platform_compatible(&info("a", "1.0.0", &[], None), "linux"));
    assert!(is_platform_compatible(&info("a", "1.0.0", &[], Some(vec![])), "linux"));
    assert!(is_platform_compatible(&info("a", "1.0.0", &[], Some(vec!["linux", "darwin"])), "linux"));
    assert!(!is_platform_compatible(&info("a", "1.0.0", &[], Some(vec!["darwin"])), "linux"));
    assert!(!is_platform_compatible(&info("a", "1.0.0", &[], Some(vec!["!linux"])), "linux"));
    assert!(is_platform_compatible(&info("a", "1.0.0", &[], Some(vec!["!win32"])), "linux"));
}

#[test]
fn test_resolve_version_picks_highest_match() {
    let m = metadata("pkg", &["1.0.0", "1.4.2", "2.0.0", "1.10.0", "0.9.0"], Some("2.0.0"));
    let i = resolve_version(&m, "^1.0.0").unwrap();
    assert_eq!(m.versions[i].0, "1.10.0");
    let i = resolve_version(&m, "latest").unwrap();
    assert_eq!(m.versions[i].0, "2.0.0");
    let i = resolve_version(&m, "*").unwrap();
    assert_eq!(m.versions[i].0, "2.0.0");
    let i = resolve_version(&m, ">=1.0.0 <1.5.0").unwrap();
    assert_eq!(m.versions[i].0, "1.4.2");
    assert!(resolve_version(&m, "^3.0.0").is_none());
    assert!(resolve_version(&m, "garbage constraint").is_none());
}

#[test]
fn test_queue_dependency() {
    let mut ctx = ResolutionContext::new("https://registry.npmjs.org".to_string(), "linux".to_string());
    assert_eq!(queue_dependency(&mut ctx, "react", "^18.0.0", false), Some("react@^18.0.0".to_string()));
    assert_eq!(queue_dependency(&mut ctx, "react", "^18.0.0", true), Some("react@^18.0.0".to_string()));
    assert_eq!(ctx.queue.len(), 1);
    assert_eq!(queue_dependency(&mut ctx, "local", "file:../local", false), None);
    assert_eq!(queue_dependency(&mut ctx, "ws", "workspace:*", false), None);
    assert_eq!(ctx.queue.len(), 1);
    assert_eq!(ctx.queued, vec!["react@^18.0.0".to_string()]);
}

#[test]
fn test_queue_root_dependencies() {
    let mut ctx = ResolutionContext::new("r".to_string(), "linux".to_string());
    let deps = vec![
        ("a".to_string(), "^1.0.0".to_string()),
        ("shared".to_string(), "file:../shared".to_string()),
        ("w".to_string(), "workspace:*".to_string()),
    ];
    let dev = vec![("a".to_string(), "^1.0.0".to_string()), ("b".to_string(), "~2.0.0".to_string())];
    let n = queue_root_dependencies(&mut ctx, &deps, &dev, true);
    assert_eq!(n, 2);
    assert_eq!(ctx.queue.len(), 2);
    assert_eq!(ctx.workspace_packages.len(), 2);
    assert_eq!(ctx.workspace_packages[0].relative_path, "../shared");
    assert_eq!(ctx.workspace_packages[1].relative_path, "*");
}

#[test]
fn test_resolution_round() {
    let mut ctx = ResolutionContext::new("r".to_string(), "linux".to_string());
    let deps = vec![("app-dep".to_string(), "^1.0.0".to_string())];
    let n = queue_root_dependencies(&mut ctx, &deps, &Vec::new(), false);
    assert_eq!(n, 1);

    let batch = next_batch(&mut ctx);
    assert_eq!(batch.items.len(), 1);
    assert_eq!(batch.to_fetch, vec!["app-dep".to_string()]);
    assert!(ctx.queue.is_empty());

    let mut m = metadata("app-dep", &["1.0.0", "1.2.0"], Some("1.2.0"));
    m.versions[1].1 = info("app-dep", "1.2.0", &[("leaf", "^2.0.0")], None);
    record_fetch_results(&mut ctx, &batch.items, vec![("app-dep".to_string(), Ok(m))]);
    assert_eq!(ctx.metadata_cache.len(), 1);

    let resolved = process_batch(&mut ctx, &batch.items);
    assert_eq!(resolved, 1);
    assert_eq!(ctx.resolved[0].0, "app-dep@1.2.0");
    assert_eq!(ctx.resolved[0].1.integrity, "sha1-abc");
    assert_eq!(ctx.resolved[0].1.dependencies, vec!["leaf@^2.0.0".to_string()]);
    assert_eq!(ctx.root_deps, vec!["app-dep@1.2.0".to_string()]);
    assert!(is_satisfied(&ctx, "app-dep", "^1.1.0"));
    assert!(!is_satisfied(&ctx, "app-dep", "^2.0.0"));

    // the leaf's fetch fails: the non-optional item is recorded as failed
    let batch = next_batch(&mut ctx);
    assert_eq!(batch.to_fetch, vec!["leaf".to_string()]);
    record_fetch_results(&mut ctx, &batch.items, vec![("leaf".to_string(), Err("HTTP 404".to_string()))]);
    assert_eq!(ctx.failed, vec![("leaf".to_string(), "^2.0.0".to_string(), "HTTP 404".to_string())]);
    assert_eq!(process_batch(&mut ctx, &batch.items), 0);
}

#[test]
fn test_no_matching_version_is_recorded() {
    let mut ctx = ResolutionContext::new("r".to_string(), "linux".to_string());
    queue_dependency(&mut ctx, "p", "^9.0.0", false);
    let batch = next_batch(&mut ctx);
    record_fetch_results(&mut ctx, &batch.items, vec![("p".to_string(), Ok(metadata("p", &["1.0.0"], None)))]);
    assert_eq!(process_batch(&mut ctx, &batch.items), 0);
    assert_eq!(ctx.failed[0].2, "No version satisfies constraint ^9.0.0");
}

fn resolved(pname: &str, version: &str, deps: &[&str]) -> (String, ResolvedPackage) {
    (
        format!("{}@{}", pname, version),
        ResolvedPackage {
            pname: pname.to_string(),
            version: version.to_string(),
            url: format!("https://r/{}.tgz", pname),
            integrity: "sha512-x".to_string(),
            dependencies: deps.iter().map(|d| d.to_string()).collect(),
            has_bin: None,
        },
    )
}

#[test]
fn test_finalize_dependencies() {
    let mut ctx = ResolutionContext::new("r".to_string(), "linux".to_string());
    ctx.resolved.push(resolved("fs-extra", "11.0.0", &["jsonfile@^6.0.1", "@types/node@*", "missing@^1.0.0"]));
    ctx.resolved.push(resolved("jsonfile", "6.2.0", &[]));
    ctx.resolved.push(resolved("@types/node", "20.1.0", &[]));
    finalize_dependencies(&mut ctx);
    assert_eq!(
        ctx.resolved[0].1.dependencies,
        vec!["jsonfile@6.2.0".to_string(), "@types/node@20.1.0".to_string(), "missing@^1.0.0".to_string()]
    );
}

#[test]
fn test_render_deps_nix() {
    let mut ctx = ResolutionContext::new("r".to_string(), "linux".to_string());
    ctx.resolved.push(resolved("b", "1.0.0", &[]));
    let (k, mut p) = resolved("a", "2.0.0", &["b@1.0.0"]);
    p.has_bin = Some(true);
    ctx.resolved.push((k, p));
    ctx.root_deps = vec!["b@1.0.0".to_string(), "a@2.0.0".to_string()];
    let text = render_deps_nix(&ctx, "2024-01-01T00:00:00Z");
    assert!(text.starts_with("# Generated by pleme-linker resolve\n"));
    assert!(text.contains("  generatedAt = \"2024-01-01T00:00:00Z\";\n"));
    assert!(text.contains("  packageCount = 2;\n"));
    assert!(text.contains("  rootDependencies = [\n    \"a@2.0.0\"\n    \"b@1.0.0\"\n  ];"));
    let a = text.find("\"a@2.0.0\" = {").unwrap();
    let b = text.find("\"b@1.0.0\" = {").unwrap();
    assert!(a < b, "packages are sorted by key");
    assert!(text.contains(
        "    \"a@2.0.0\" = {\n      pname = \"a\";\n      version = \"2.0.0\";\n      url = \"https://r/a.tgz\";\n      integrity = \"sha512-x\";\n      dependencies = [ \"b@1.0.0\" ];\n      hasBin = true;\n    };"
    ));
    assert!(!text.contains("workspacePackages"));
    assert!(text.ends_with("  };\n}\n"));
}

#[test]
fn test_render_deps_nix_workspace_section() {
    let mut ctx = ResolutionContext::new("r".to_string(), "linux".to_string());
    let deps = vec![
        ("@z/shared".to_string(), "file:../shared".to_string()),
        ("@a/ui".to_string(), "link:../ui".to_string()),
    ];
    queue_root_dependencies(&mut ctx, &deps, &Vec::new(), false);
    let text = render_deps_nix(&ctx, "t");
    assert!(text.contains("  packageCount = 0;\n"));
    assert!(text.contains(
        "  workspacePackages = [\n    { name = \"@a/ui\"; path = \"../ui\"; }\n    { name = \"@z/shared\"; path = \"../shared\"; }\n  ];"
    ));
}

#[test]
fn test_metadata_url() {
    assert_eq!(metadata_url_exec("https://registry.npmjs.org", "react"), "https://registry.npmjs.org/react");
    assert_eq!(
        metadata_url_exec("https://registry.npmjs.org", "@types/node"),
        "https://registry.npmjs.org/@types%2fnode"
    );
}

#[test]
fn test_batch_fetch_is_bounded() {
    let mut ctx = ResolutionContext::new("r".to_string(), "linux".to_string());
    for i in 0..40 {
        queue_dependency(&mut ctx, &format!("pkg{}", i), "^1.0.0", false);
    }
    queue_dependency(&mut ctx, "pkg0", "^2.0.0", false);
    let batch = next_batch(&mut ctx);
    assert_eq!(batch.to_fetch.len(), 32);
    assert_eq!(batch.items.len(), 32);
    assert_eq!(ctx.queue.len(), 9);
}

#[test]
fn test_deps_nix_independent_of_resolution_order() {
    let mut one = ResolutionContext::new("r".to_string(), "linux".to_string());
    let mut two = ResolutionContext::new("r".to_string(), "linux".to_string());
    one.resolved.push(resolved("x", "1.0.0", &[]));
    one.resolved.push(resolved("a", "2.0.0", &[]));
    two.resolved.push(resolved("a", "2.0.0", &[]));
    two.resolved.push(resolved("x", "1.0.0", &[]));
    assert_eq!(render_deps_nix(&one, "t"), render_deps_nix(&two, "t"));
}

#[test]
fn test_transitive_packages_are_not_root_dependencies() {
    let mut ctx = ResolutionContext::new("r".to_string(), "linux".to_string());
    let deps = vec![("app-dep".to_string(), "^1.0.0".to_string())];
    queue_root_dependencies(&mut ctx, &deps, &Vec::new(), false);
    assert_eq!(ctx.root_requests, vec!["app-dep@^1.0.0".to_string()]);

    let batch = next_batch(&mut ctx);
    let mut m = metadata("app-dep", &["1.2.0"], Some("1.2.0"));
    m.versions[0].1 = info("app-dep", "1.2.0", &[("leaf", "^2.0.0")], None);
    record_fetch_results(&mut ctx, &batch.items, vec![("app-dep".to_string(), Ok(m))]);
    assert_eq!(process_batch(&mut ctx, &batch.items), 1);

    let batch = next_batch(&mut ctx);
    record_fetch_results(&mut ctx, &batch.items, vec![("leaf".to_string(), Ok(metadata("leaf", &["2.1.0"], None)))]);
    assert_eq!(process_batch(&mut ctx, &batch.items), 1);
    assert_eq!(ctx.resolved.len(), 2);
    assert_eq!(ctx.root_deps, vec!["app-dep@1.2.0".to_string()]);
}

#[test]
fn test_sort_pairs_by_name_is_order_free() {
    let a = vec![("b".to_string(), "2".to_string()), ("a".to_string(), "1".to_string()), ("c".to_string(), "3".to_string())];
    let b = vec![("c".to_string(), "3".to_string()), ("b".to_string(), "2".to_string()), ("a".to_string(), "1".to_string())];
    let sa = pleme_linker::sorting::sort_pairs_by_name(&a);
    assert_eq!(sa, pleme_linker::sorting::sort_pairs_by_name(&b));
    assert_eq!(sa[0].0, "a");
    assert_eq!(sa[2].0, "c");
}

#[test]
fn test_generate_deps_nix_timestamp_form() {
    let ctx = ResolutionContext::new("r".to_string(), "linux".to_string());
    let text = pleme_linker::resolver::generate_deps_nix(&ctx).unwrap();
    let start = text.find("generatedAt = \"").unwrap() + "generatedAt = \"".len();
    let ts: Vec<char> = text[start..].chars().take_while(|c| *c != '"').collect();
    assert_eq!(ts.len(), 20);
    for (i, c) in ts.iter().enumerate() {
        match i {
            4 | 7 => assert_eq!(*c, '-'),
            10 => assert_eq!(*c, 'T'),
            13 | 16 => assert_eq!(*c, ':'),
            19 => assert_eq!(*c, 'Z'),
            _ => assert!(c.is_ascii_digit()),
        }
    }
}
