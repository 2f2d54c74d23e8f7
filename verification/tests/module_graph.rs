//! Module graph, module analysis, bundle assembly and the generated page.
use pleme_linker::analysis::{analyze_module, analyze_module_with, module_resolver, ModuleAnalysis};
use pleme_linker::bundle::{
    bundle_file_name, create_bundle, css_link_tags, hashed_css_name, render_index_html,
};
use pleme_linker::graph::{topological_sort, Module, ModuleGraphBuilder};

fn module(path: &str, deps: &[&str], compiled: &str, is_commonjs: bool) -> Module {
    Module {
        path: path.to_string(),
        source: String::new(),
        compiled: compiled.to_string(),
        dependencies: deps.iter().map(|d| d.to_string()).collect(),
        exports: Vec::new(),
        is_commonjs,
    }
}

#[test]
fn test_topological_sort_dependencies_first() {
    let modules = vec![
        module("/app/main.tsx", &["/app/a.ts", "/app/b.ts"], "", false),
        module("/app/a.ts", &["/app/b.ts"], "", false),
        module("/app/b.ts", &["/node_modules/x.js"], "", false),
    ];
    let order = topological_sort(&modules);
    let paths: Vec<&str> = order.iter().map(|&i| modules[i].path.as_str()).collect();
    assert_eq!(paths, vec!["/app/b.ts", "/app/a.ts", "/app/main.tsx"]);
}

#[test]
fn test_topological_sort_cycle() {
    let modules = vec![module("/a.ts", &["/b.ts"], "", false), module("/b.ts", &["/a.ts"], "", false)];
    let order = topological_sort(&modules);
    assert_eq!(order, vec![1, 0]);
}

#[test]
fn test_module_graph_builder() {
    let mut g = ModuleGraphBuilder::new("/app/src/main.tsx");
    assert_eq!(g.next_module(), Some("/app/src/main.tsx".to_string()));
    g.add_module(
        "/app/src/main.tsx".to_string(),
        "src".to_string(),
        "compiled".to_string(),
        ModuleAnalysis {
            imports: vec![
                "/app/src/a.ts".to_string(),
                "/app/node_modules/lib/index.js".to_string(),
                "/app/src/main.tsx".to_string(),
            ],
            exports: vec![],
            is_commonjs: false,
        },
    );
    // the already-seen entry is not queued again; node_modules is skipped
    assert_eq!(g.next_module(), Some("/app/src/a.ts".to_string()));
    assert_eq!(g.next_module(), None);
    let modules = g.into_modules();
    assert_eq!(modules.len(), 1);
    assert_eq!(modules[0].dependencies.len(), 3);
}

#[test]
fn test_analyze_module_exports() {
    let resolver = module_resolver();
    let source = r#"
import { x } from './does-not-exist';
const y = require('lodash');
export const answer = 42;
export function greet() {}
export default App;
export { a, b as c, type T };
exports.helper = 1;
"#;
    let a = analyze_module(source, "/nonexistent-dir/mod.ts", &resolver).unwrap();
    assert!(a.imports.is_empty());
    assert!(a.is_commonjs);
    assert_eq!(a.exports, vec!["helper", "default", "answer", "greet", "a", "c"]);
}

#[test]
fn test_analyze_module_esm() {
    let resolver = module_resolver();
    let a = analyze_module("export class Widget {}\n", "/nowhere/w.ts", &resolver).unwrap();
    assert!(!a.is_commonjs);
    assert_eq!(a.exports, vec!["Widget"]);
}

#[test]
fn test_create_bundle_layout() {
    let modules = vec![
        module("/app/b.js", &[], "const b = 1;\nmodule.exports = b;", true),
        module("/app/main.js", &["/app/b.js"], "console.log(1);", false),
    ];
    let order = topological_sort(&modules);
    let bundle = create_bundle(&modules, &order, "/", &|_p: String| -> Option<String> { None });
    assert!(bundle.starts_with("(function() {\n  'use strict';\n"));
    assert!(bundle.contains(
        "  __modules['/app/b.js'] = function(module, exports, require, __toESM, __toCommonJS) {\n    const b = 1;\n    module.exports = b;\n  };\n\n"
    ));
    assert!(bundle.contains(
        "  __modules['/app/main.js'] = function(module, exports, require, __toESM, __toCommonJS) {\n    __markESM(exports);\n    console.log(1);\n  };\n\n"
    ));
    assert!(bundle.ends_with("  __require('/app/main.js');\n})();\n"));
}

#[test]
fn test_render_index_html_default_template() {
    let html = render_index_html(None, "index-abcdef12.js", "<link rel=\"stylesheet\" href=\"/a.css\" />", "/", "");
    assert!(html.contains("<script src=\"/index-abcdef12.js\"></script>"));
    assert!(html.contains("<link rel=\"stylesheet\" href=\"/a.css\" />"));
    assert!(!html.contains("PLACEHOLDER"));
    assert!(html.starts_with("<!DOCTYPE html>"));
}

#[test]
fn test_render_index_html_vite_template_with_cdn() {
    let template = "<body><script type=\"module\" src=\"/src/main.tsx\"></script></body>";
    let html = render_index_html(Some(template), "index-1.js", "", "/app/", "<script src=\"cdn\"></script>");
    assert_eq!(
        html,
        "<body><script src=\"cdn\"></script>\n    <script src=\"/app/index-1.js\"></script></body>"
    );
}

#[test]
fn test_file_names_and_tags() {
    assert_eq!(bundle_file_name("0123456789abcdef"), "index-01234567.js");
    assert_eq!(hashed_css_name("styles", "fedcba9876543210"), "styles-fedcba98.css");
    let tags = css_link_tags("/", &vec!["a.css".to_string(), "b.css".to_string()]);
    assert_eq!(
        tags,
        "<link rel=\"stylesheet\" href=\"/a.css\" />\n    <link rel=\"stylesheet\" href=\"/b.css\" />"
    );
    assert_eq!(css_link_tags("/", &vec![]), "");
}

#[test]
fn test_module_resolver_options() {
    let r = module_resolver();
    assert_eq!(r.options.extensions, vec![".tsx", ".ts", ".jsx", ".js", ".mjs", ".cjs", ".json"]);
    assert_eq!(r.options.main_fields, vec!["module", "main"]);
    assert_eq!(r.options.condition_names, vec!["import", "module", "default"]);
    assert_eq!(r.options.alias_fields, vec![vec!["browser".to_string()]]);
}

#[test]
fn test_analyze_module_resolution_requests() {
    let source = "import a from './a';\nimport b from 'lib';\nconst c = require('../c');\nimport d from './d';\n";
    let asked = std::cell::RefCell::new(Vec::new());
    let resolve = |d: String, s: String| -> Option<String> {
        asked.borrow_mut().push((d.clone(), s.clone()));
        if s == "./d" {
            Some("/app/node_modules/d/index.js".to_string())
        } else {
            Some(format!("{}/{}.ts", d, s.trim_start_matches("./")))
        }
    };
    let a = analyze_module_with(source, "/app/src/main.ts", &resolve).unwrap();
    assert_eq!(
        *asked.borrow(),
        vec![
            ("/app/src".to_string(), "./a".to_string()),
            ("/app/src".to_string(), "./d".to_string()),
            ("/app/src".to_string(), "../c".to_string()),
        ]
    );
    assert_eq!(a.imports, vec!["/app/src/a.ts", "/app/src/../c.ts"]);
}

#[test]
fn test_topological_sort_orders_edges_off_cycles() {
    let modules = vec![
        module("/app/main.js", &["/app/p.js", "/app/x.js"], "", false),
        module("/app/p.js", &["/app/q.js"], "", false),
        module("/app/q.js", &["/app/p.js"], "", false),
        module("/app/x.js", &[], "", false),
    ];
    let order = topological_sort(&modules);
    let pos = |i: usize| order.iter().position(|&m| m == i).unwrap();
    assert_eq!(order.len(), 4);
    assert!(pos(1) < pos(0));
    assert!(pos(2) < pos(0));
    assert!(pos(3) < pos(0));
}

#[test]
fn test_diff_paths_dot_only_for_same_path() {
    assert_eq!(pleme_linker::paths::diff_paths("/a/b", "/a/b"), Some(".".to_string()));
    assert_eq!(pleme_linker::paths::diff_paths("/a/b/", "/a//b"), Some(".".to_string()));
    assert_eq!(pleme_linker::paths::diff_paths("/a/b", "/a"), Some("b".to_string()));
    assert_eq!(pleme_linker::paths::diff_paths("/a", "/a/b"), Some("..".to_string()));
}

#[test]
fn test_diff_paths_joins_back() {
    let rel = pleme_linker::paths::diff_paths("/a/x/y", "/a/b/c").unwrap();
    assert_eq!(rel, "../../x/y");
    let joined = pleme_linker::paths::path_join("/a/b/c", &rel);
    assert_eq!(joined, "/a/b/c/../../x/y");
    assert_eq!(pleme_linker::paths::path_join("/a/", "b"), "/a/b");
    assert_eq!(pleme_linker::paths::path_join("/a", "/b"), "/b");
    assert_eq!(pleme_linker::paths::path_join("", "b"), "b");
}
