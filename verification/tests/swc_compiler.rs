//! Declaration stub tests
use pleme_linker::declarations::extract_exports_for_declaration;

#[test]
fn test_extract_exports() {
    let source = r#"
            export type Foo = string;
            export interface Bar { name: string; }
            export const greeting: string = "hello";
            export function greet(name: string): string { return name; }
            export * from './other';
        "#;

    let decl = extract_exports_for_declaration(source);
    assert!(decl.contains("export type Foo"));
    assert!(decl.contains("export interface Bar"));
    assert!(decl.contains("export declare const greeting"));
    assert!(decl.contains("export declare function greet"));
    assert!(decl.contains("export * from"));
}
