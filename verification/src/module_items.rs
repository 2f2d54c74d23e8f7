//! The top-level module statements that the ESM to CommonJS transform reads,
//! held as plain values, and the parser call that produces them.
use vstd::prelude::*;
use oxc::ast::ast::{
    BindingPatternKind, Declaration, ExportAllDeclaration, ExportDefaultDeclaration,
    ExportDefaultDeclarationKind, ExportNamedDeclaration, ExportSpecifier, ImportDeclaration,
    ImportDeclarationSpecifier, ModuleExportName, Statement,
};
use oxc::span::GetSpan;
use crate::externals::opt_view;

verus! {

/// One binding of an import declaration.
#[derive(Debug)]
pub enum ImportBinding {
    /// `import local from 'm'`
    Default(String),
    /// `import * as local from 'm'`
    Namespace(String),
    /// `import { imported as local } from 'm'`
    Named { local: String, imported: String },
}

/// One specifier of an `export { local as exported }` list.
#[derive(Debug)]
pub struct ExportBinding {
    pub local: String,
    pub exported: String,
}

/// What an `export default` exports.
#[derive(Debug)]
pub enum DefaultKind {
    /// A function declaration, with its name if it has one.
    Function(Option<String>),
    /// A class declaration, with its name if it has one.
    Class(Option<String>),
    /// Any other expression.
    Expression,
}

/// The declaration of an `export const/let/var/function/class ...`.
#[derive(Debug)]
pub struct ExportedDecl {
    /// Byte span of the declaration.
    pub start: usize,
    pub end: usize,
    /// One entry per declared binding: its name when it is a plain identifier.
    pub names: Vec<Option<String>>,
}

/// A top-level statement of a module, as far as the transform reads it.
/// Spans are byte offsets into the module source.
#[derive(Debug)]
pub enum TopItem {
    Import {
        start: usize,
        end: usize,
        source: String,
        is_type: bool,
        bindings: Option<Vec<ImportBinding>>,
    },
    ExportAll { start: usize, end: usize, source: String, exported: Option<String> },
    ExportDefault { start: usize, end: usize, decl_start: usize, decl_end: usize, kind: DefaultKind },
    ExportNamed {
        start: usize,
        end: usize,
        is_type: bool,
        source: Option<String>,
        specifiers: Vec<ExportBinding>,
        declaration: Option<ExportedDecl>,
    },
    Other,
}

pub enum ImportBindingView {
    Default(Seq<char>),
    Namespace(Seq<char>),
    Named { local: Seq<char>, imported: Seq<char> },
}

pub struct ExportBindingView {
    pub local: Seq<char>,
    pub exported: Seq<char>,
}

pub enum DefaultKindView {
    Function(Option<Seq<char>>),
    Class(Option<Seq<char>>),
    Expression,
}

pub struct ExportedDeclView {
    pub start: usize,
    pub end: usize,
    pub names: Seq<Option<Seq<char>>>,
}

pub enum TopItemView {
    Import {
        start: usize,
        end: usize,
        source: Seq<char>,
        is_type: bool,
        bindings: Option<Seq<ImportBindingView>>,
    },
    ExportAll { start: usize, end: usize, source: Seq<char>, exported: Option<Seq<char>> },
    ExportDefault { start: usize, end: usize, decl_start: usize, decl_end: usize, kind: DefaultKindView },
    ExportNamed {
        start: usize,
        end: usize,
        is_type: bool,
        source: Option<Seq<char>>,
        specifiers: Seq<ExportBindingView>,
        declaration: Option<ExportedDeclView>,
    },
    Other,
}

impl View for ImportBinding {
    type V = ImportBindingView;

    open spec fn view(&self) -> ImportBindingView {
        match self {
            ImportBinding::Default(l) => ImportBindingView::Default(l@),
            ImportBinding::Namespace(l) => ImportBindingView::Namespace(l@),
            ImportBinding::Named { local, imported } => ImportBindingView::Named {
                local: local@,
                imported: imported@,
            },
        }
    }
}

impl View for ExportBinding {
    type V = ExportBindingView;

    open spec fn view(&self) -> ExportBindingView {
        ExportBindingView { local: self.local@, exported: self.exported@ }
    }
}

impl View for DefaultKind {
    type V = DefaultKindView;

    open spec fn view(&self) -> DefaultKindView {
        match self {
            DefaultKind::Function(n) => DefaultKindView::Function(opt_view(*n)),
            DefaultKind::Class(n) => DefaultKindView::Class(opt_view(*n)),
            DefaultKind::Expression => DefaultKindView::Expression,
        }
    }
}

pub open spec fn opt_views(v: Seq<Option<String>>) -> Seq<Option<Seq<char>>> {
    v.map_values(|o: Option<String>| opt_view(o))
}

impl View for ExportedDecl {
    type V = ExportedDeclView;

    open spec fn view(&self) -> ExportedDeclView {
        ExportedDeclView { start: self.start, end: self.end, names: opt_views(self.names@) }
    }
}

pub open spec fn binding_views(v: Seq<ImportBinding>) -> Seq<ImportBindingView> {
    v.map_values(|b: ImportBinding| b@)
}

pub open spec fn export_binding_views(v: Seq<ExportBinding>) -> Seq<ExportBindingView> {
    v.map_values(|b: ExportBinding| b@)
}

impl View for TopItem {
    type V = TopItemView;

    open spec fn view(&self) -> TopItemView {
        match self {
            TopItem::Import { start, end, source, is_type, bindings } => TopItemView::Import {
                start: *start,
                end: *end,
                source: source@,
                is_type: *is_type,
                bindings: match bindings {
                    Some(v) => Some(binding_views(v@)),
                    None => None,
                },
            },
            TopItem::ExportAll { start, end, source, exported } => TopItemView::ExportAll {
                start: *start,
                end: *end,
                source: source@,
                exported: opt_view(*exported),
            },
            TopItem::ExportDefault { start, end, decl_start, decl_end, kind } => TopItemView::ExportDefault {
                start: *start,
                end: *end,
                decl_start: *decl_start,
                decl_end: *decl_end,
                kind: kind@,
            },
            TopItem::ExportNamed { start, end, is_type, source, specifiers, declaration } => TopItemView::ExportNamed {
                start: *start,
                end: *end,
                is_type: *is_type,
                source: opt_view(*source),
                specifiers: export_binding_views(specifiers@),
                declaration: match declaration {
                    Some(d) => Some(d@),
                    None => None,
                },
            },
            TopItem::Other => TopItemView::Other,
        }
    }
}

pub open spec fn item_views(v: Seq<TopItem>) -> Seq<TopItemView> {
    v.map_values(|i: TopItem| i@)
}

pub open spec fn opt_item_views(o: Option<Vec<TopItem>>) -> Option<Seq<TopItemView>> {
    match o {
        Some(v) => Some(item_views(v@)),
        None => None,
    }
}

#[verifier::external_type_specification]
#[verifier::external_body]
pub struct ExStatement<'a>(Statement<'a>);

#[verifier::external_type_specification]
#[verifier::external_body]
pub struct ExModuleExportName<'a>(ModuleExportName<'a>);

#[verifier::external_type_specification]
#[verifier::external_body]
pub struct ExImportDeclaration<'a>(ImportDeclaration<'a>);

#[verifier::external_type_specification]
#[verifier::external_body]
pub struct ExImportDeclarationSpecifier<'a>(ImportDeclarationSpecifier<'a>);

#[verifier::external_type_specification]
#[verifier::external_body]
pub struct ExExportAllDeclaration<'a>(ExportAllDeclaration<'a>);

#[verifier::external_type_specification]
#[verifier::external_body]
pub struct ExExportDefaultDeclaration<'a>(ExportDefaultDeclaration<'a>);

#[verifier::external_type_specification]
#[verifier::external_body]
pub struct ExExportNamedDeclaration<'a>(ExportNamedDeclaration<'a>);

#[verifier::external_type_specification]
#[verifier::external_body]
pub struct ExExportSpecifier<'a>(ExportSpecifier<'a>);

#[verifier::external_type_specification]
#[verifier::external_body]
pub struct ExDeclaration<'a>(Declaration<'a>);

#[verifier::external_type_specification]
#[verifier::external_body]
pub struct ExBindingPatternKind<'a>(BindingPatternKind<'a>);

/// The top-level statements of a module as oxc's parser reads it (TypeScript
/// module syntax), or `None` when the parser reports an error.
pub uninterp spec fn oxc_top_items(code: Seq<char>) -> Option<Seq<TopItemView>>;

/// Parses `code` with oxc's `Parser` (module, TypeScript) and converts its
/// top-level statements; `None` when the parser reports errors.
#[verifier::external_body]
pub(crate) fn parse_top_items(code: &str) -> (r: Option<Vec<TopItem>>)
    ensures
        opt_item_views(r) == oxc_top_items(code@),
{
    let allocator = oxc::allocator::Allocator::default();
    let source_type = oxc::span::SourceType::default().with_module(true).with_typescript(true);
    let ret = oxc::parser::Parser::new(&allocator, code, source_type)
        .with_options(oxc::parser::ParseOptions::default())
        .parse();
    if !ret.errors.is_empty() {
        return None;
    }
    Some(ret.program.body.iter().map(item_of).collect())
}

/// One top-level statement, told apart by its variant.
#[verifier::external_body]
fn item_of(stmt: &Statement) -> TopItem {
    match stmt {
        Statement::ImportDeclaration(d) => import_of(d),
        Statement::ExportAllDeclaration(d) => export_all_of(d),
        Statement::ExportDefaultDeclaration(d) => export_default_of(d),
        Statement::ExportNamedDeclaration(d) => export_named_of(d),
        _ => TopItem::Other,
    }
}

/// The fields of an import declaration.
#[verifier::external_body]
fn import_of(d: &ImportDeclaration) -> TopItem {
    TopItem::Import {
        start: d.span.start as usize,
        end: d.span.end as usize,
        source: d.source.value.to_string(),
        is_type: d.import_kind.is_type(),
        bindings: d.specifiers.as_ref().map(|v| v.iter().map(binding_of).collect()),
    }
}

/// One import specifier, told apart by its variant.
#[verifier::external_body]
fn binding_of(s: &ImportDeclarationSpecifier) -> ImportBinding {
    match s {
        ImportDeclarationSpecifier::ImportDefaultSpecifier(d) => ImportBinding::Default(d.local.name.to_string()),
        ImportDeclarationSpecifier::ImportNamespaceSpecifier(n) => ImportBinding::Namespace(n.local.name.to_string()),
        ImportDeclarationSpecifier::ImportSpecifier(s) => ImportBinding::Named {
            local: s.local.name.to_string(),
            imported: export_name_of(&s.imported),
        },
    }
}

/// The name a `ModuleExportName` holds.
#[verifier::external_body]
fn export_name_of(n: &ModuleExportName) -> String {
    match n {
        ModuleExportName::IdentifierName(id) => id.name.to_string(),
        ModuleExportName::IdentifierReference(id) => id.name.to_string(),
        ModuleExportName::StringLiteral(s) => s.value.to_string(),
    }
}

/// The fields of an `export * from` declaration.
#[verifier::external_body]
fn export_all_of(d: &ExportAllDeclaration) -> TopItem {
    TopItem::ExportAll {
        start: d.span.start as usize,
        end: d.span.end as usize,
        source: d.source.value.to_string(),
        exported: d.exported.as_ref().map(export_name_of),
    }
}

/// The fields of an `export default` declaration.
#[verifier::external_body]
fn export_default_of(d: &ExportDefaultDeclaration) -> TopItem {
    let kind = match &d.declaration {
        ExportDefaultDeclarationKind::FunctionDeclaration(f) => DefaultKind::Function(f.id.as_ref().map(|i| i.name.to_string())),
        ExportDefaultDeclarationKind::ClassDeclaration(c) => DefaultKind::Class(c.id.as_ref().map(|i| i.name.to_string())),
        _ => DefaultKind::Expression,
    };
    let span = d.declaration.span();
    TopItem::ExportDefault { start: d.span.start as usize, end: d.span.end as usize, decl_start: span.start as usize, decl_end: span.end as usize, kind }
}

/// The fields of an `export { .. }` / `export <declaration>` declaration.
#[verifier::external_body]
fn export_named_of(d: &ExportNamedDeclaration) -> TopItem {
    TopItem::ExportNamed {
        start: d.span.start as usize,
        end: d.span.end as usize,
        is_type: d.export_kind.is_type(),
        source: d.source.as_ref().map(|s| s.value.to_string()),
        specifiers: d.specifiers.iter().map(export_binding_of).collect(),
        declaration: d.declaration.as_ref().map(exported_decl_of),
    }
}

/// The local and exported names of an export specifier.
#[verifier::external_body]
fn export_binding_of(s: &ExportSpecifier) -> ExportBinding {
    ExportBinding { local: export_name_of(&s.local), exported: export_name_of(&s.exported) }
}

/// The span and declared bindings of an exported declaration, told apart by variant.
#[verifier::external_body]
fn exported_decl_of(d: &Declaration) -> ExportedDecl {
    let names = match d {
        Declaration::VariableDeclaration(v) => v.declarations.iter().map(|x| binding_name_of(&x.id.kind)).collect(),
        Declaration::FunctionDeclaration(f) => vec![f.id.as_ref().map(|i| i.name.to_string())],
        Declaration::ClassDeclaration(c) => vec![c.id.as_ref().map(|i| i.name.to_string())],
        _ => Vec::new(),
    };
    ExportedDecl { start: d.span().start as usize, end: d.span().end as usize, names }
}

/// The name of a binding pattern when it is a plain identifier.
#[verifier::external_body]
fn binding_name_of(k: &BindingPatternKind) -> Option<String> {
    match k {
        BindingPatternKind::BindingIdentifier(id) => Some(id.name.to_string()),
        _ => None,
    }
}

} // verus!
