use pleme_linker::json::{bin_entries, modify_package_json_content, root_dependency_entries};

#[test]
fn test_modify_package_json_content() {
    let content = r#"{"name":"lib","main":"./dist/index.js","types":"./dist/index.d.ts","exports":{".":{"import":"./dist/index.js","types":"./dist/index.d.ts"},"./package.json":"./package.json"},"version":"1.0.0"}"#;
    let out = modify_package_json_content(content).unwrap();
    let v: serde_json::Value = serde_json::from_str(&out).unwrap();
    assert_eq!(v["main"], "./src/index.ts");
    assert_eq!(v["types"], "./src/index.ts");
    assert_eq!(v["exports"]["."]["import"], "./src/index.ts");
    assert_eq!(v["exports"]["."]["types"], "./src/index.ts");
    assert_eq!(v["exports"]["./package.json"], "./package.json");
    assert_eq!(v["version"], "1.0.0");
    assert!(out.contains("\n  \"name\": \"lib\""));
}

#[test]
fn test_modify_package_json_content_invalid() {
    assert_eq!(modify_package_json_content("{not json").unwrap_err(), "package.json is not valid JSON");
    assert_eq!(modify_package_json_content("[1, 2.5]").unwrap(), "[\n  1,\n  2.5\n]");
}

#[test]
fn test_root_dependency_entries() {
    let pj = r#"{"dependencies":{"zod":"^3.0.0","react":"^18.2.0","odd":1},"devDependencies":{"vite":"^5"}}"#;
    assert_eq!(
        root_dependency_entries(pj, "dependencies").unwrap(),
        vec![
            ("odd".to_string(), "*".to_string()),
            ("react".to_string(), "^18.2.0".to_string()),
            ("zod".to_string(), "^3.0.0".to_string()),
        ]
    );
    assert_eq!(root_dependency_entries(pj, "devDependencies").unwrap(), vec![("vite".to_string(), "^5".to_string())]);
    assert_eq!(root_dependency_entries(pj, "peerDependencies").unwrap(), vec![]);
    assert!(root_dependency_entries("nope", "dependencies").is_none());
}

#[test]
fn test_bin_entries_from_package_json() {
    assert_eq!(
        bin_entries(r#"{"bin":"./cli.js"}"#, "@scope/tool"),
        vec![("tool".to_string(), "./cli.js".to_string())]
    );
    assert_eq!(
        bin_entries(r#"{"bin":{"a":"./a.js","b":3,"c":"c.js"}}"#, "x"),
        vec![("a".to_string(), "./a.js".to_string()), ("c".to_string(), "c.js".to_string())]
    );
    assert!(bin_entries("{}", "x").is_empty());
    assert!(bin_entries("oops", "x").is_empty());
}
