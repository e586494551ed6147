//! The TypeScript syntax tree, as the oxc parser builds it, read one node at a
//! time into the plain nodes of `ts_parser`.
//!
//! The tree is opaque to the verifier. Each function below that touches a
//! node reads one field of it, or tells the variants of an enum apart, and
//! states nothing of what it returns. What the whole reading yields, the
//! plain statement nodes of a source text, is named `ts_nodes_of` in
//! `ts_parser`, and `parse_statement_nodes` states that its result is that.
use vstd::prelude::*;

use oxc_allocator::Allocator;
use oxc_ast::ast::{
    Class, ClassElement, Declaration, ExportDefaultDeclarationKind, Expression, PropertyDefinition,
    PropertyKey, Statement, TSInterfaceDeclaration, TSPropertySignature, TSSignature, TSType,
    TSTypeAliasDeclaration,
};
use oxc_parser::Parser;
use oxc_span::SourceType;

use crate::ts_parser::{
    stmts_same, static_marks_from, ts_nodes_of, TsAliasNode, TsClassNode, TsDeclNode, TsInterfaceNode, TsKeyNode, TsMemberNode, TsPropNode, TsStmtNode,
};

verus! {

#[verifier::external_type_specification]
#[verifier::external_body]
pub struct ExStatement<'a>(oxc_ast::ast::Statement<'a>);

#[verifier::external_type_specification]
#[verifier::external_body]
pub struct ExDeclaration<'a>(oxc_ast::ast::Declaration<'a>);

#[verifier::external_type_specification]
#[verifier::external_body]
pub struct ExExportDefaultDeclarationKind<'a>(oxc_ast::ast::ExportDefaultDeclarationKind<'a>);

#[verifier::external_type_specification]
#[verifier::external_body]
pub struct ExClass<'a>(oxc_ast::ast::Class<'a>);

#[verifier::external_type_specification]
#[verifier::external_body]
pub struct ExExpression<'a>(oxc_ast::ast::Expression<'a>);

#[verifier::external_type_specification]
#[verifier::external_body]
pub struct ExClassElement<'a>(oxc_ast::ast::ClassElement<'a>);

#[verifier::external_type_specification]
#[verifier::external_body]
pub struct ExPropertyDefinition<'a>(oxc_ast::ast::PropertyDefinition<'a>);

#[verifier::external_type_specification]
#[verifier::external_body]
pub struct ExPropertyKey<'a>(oxc_ast::ast::PropertyKey<'a>);

#[verifier::external_type_specification]
#[verifier::external_body]
pub struct ExTSInterfaceDeclaration<'a>(oxc_ast::ast::TSInterfaceDeclaration<'a>);

#[verifier::external_type_specification]
#[verifier::external_body]
pub struct ExTSSignature<'a>(oxc_ast::ast::TSSignature<'a>);

#[verifier::external_type_specification]
#[verifier::external_body]
pub struct ExTSPropertySignature<'a>(oxc_ast::ast::TSPropertySignature<'a>);

#[verifier::external_type_specification]
#[verifier::external_body]
pub struct ExTSTypeAliasDeclaration<'a>(oxc_ast::ast::TSTypeAliasDeclaration<'a>);

#[verifier::external_type_specification]
#[verifier::external_body]
pub struct ExTSType<'a>(oxc_ast::ast::TSType<'a>);

/// What a top-level statement is, as far as declarations go.
pub enum StmtPart<'b, 'a> {
    Class(&'b Class<'a>),
    Interface(&'b TSInterfaceDeclaration<'a>),
    Alias(&'b TSTypeAliasDeclaration<'a>),
    ExportNamed(Option<&'b Declaration<'a>>),
    ExportDefault(&'b ExportDefaultDeclarationKind<'a>),
    Other,
}

/// What a declaration is.
pub enum DeclPart<'b, 'a> {
    Class(&'b Class<'a>),
    Interface(&'b TSInterfaceDeclaration<'a>),
    Alias(&'b TSTypeAliasDeclaration<'a>),
    Other,
}

/// The parts of a class that declarations are read from.
pub struct ClassParts<'b, 'a> {
    pub name: Option<String>,
    pub start: u32,
    pub super_class: Option<&'b Expression<'a>>,
    pub implements: usize,
    pub type_params: Option<(u32, u32)>,
    pub elements: &'b [ClassElement<'a>],
}

/// The parts of an interface that declarations are read from.
pub struct InterfaceParts<'b, 'a> {
    pub name: String,
    pub start: u32,
    pub extends: usize,
    pub type_params: Option<(u32, u32)>,
    pub members: &'b [TSSignature<'a>],
}

/// The parts of a type alias that declarations are read from.
pub struct AliasParts<'b, 'a> {
    pub name: String,
    pub start: u32,
    pub type_params: Option<(u32, u32)>,
    pub aliased: &'b TSType<'a>,
}

/// The parts of a property (of a class body or of a type) that fields are
/// read from.
pub struct PropParts<'b, 'a> {
    pub key: &'b PropertyKey<'a>,
    pub optional: bool,
    pub annotation: Option<(u32, u32)>,
    pub start: u32,
}

/// Tells the variants of `oxc_ast::ast::Statement` that can hold a
/// declaration apart (for `export { .. }` statements, the field
/// `declaration`; for `export default`, the field `declaration`). Nothing is
/// stated of the result.
#[verifier::external_body]
fn statement_part<'b, 'a>(st: &'b Statement<'a>) -> StmtPart<'b, 'a> {
    match st {
        Statement::ClassDeclaration(c) => StmtPart::Class(c),
        Statement::TSInterfaceDeclaration(i) => StmtPart::Interface(i),
        Statement::TSTypeAliasDeclaration(a) => StmtPart::Alias(a),
        Statement::ExportNamedDeclaration(e) => StmtPart::ExportNamed(e.declaration.as_ref()),
        Statement::ExportDefaultDeclaration(e) => StmtPart::ExportDefault(&e.declaration),
        _ => StmtPart::Other,
    }
}

/// The variant `ExportDefaultDeclarationKind::ClassDeclaration`: the class of
/// `export default class ..`, if the default export is one. Nothing is stated
/// of the result.
#[verifier::external_body]
fn export_default_class<'b, 'a>(k: &'b ExportDefaultDeclarationKind<'a>) -> Option<&'b Class<'a>> {
    match k {
        ExportDefaultDeclarationKind::ClassDeclaration(c) => Some(c),
        _ => None,
    }
}

/// Tells the class, interface and type alias variants of
/// `oxc_ast::ast::Declaration` apart. Nothing is stated of the result.
#[verifier::external_body]
fn declaration_part<'b, 'a>(d: &'b Declaration<'a>) -> DeclPart<'b, 'a> {
    match d {
        Declaration::ClassDeclaration(c) => DeclPart::Class(c),
        Declaration::TSInterfaceDeclaration(i) => DeclPart::Interface(i),
        Declaration::TSTypeAliasDeclaration(a) => DeclPart::Alias(a),
        _ => DeclPart::Other,
    }
}

/// The fields `id` (its name), `span.start`, `super_class`, `implements`
/// (its length), `type_parameters` (its span) and `body.body` of an
/// `oxc_ast::ast::Class`.
/// Nothing is stated of the result.
#[verifier::external_body]
fn class_parts<'b, 'a>(c: &'b Class<'a>) -> ClassParts<'b, 'a> {
    ClassParts {
        name: c.id.as_ref().map(|id| id.name.as_str().to_string()),
        start: c.span.start,
        super_class: c.super_class.as_ref(),
        implements: c.implements.len(),
        type_params: c.type_parameters.as_ref().map(|tp| (tp.span.start, tp.span.end)),
        elements: c.body.body.as_slice(),
    }
}

/// The variant `ClassElement::PropertyDefinition`, if the element is one.
/// Nothing is stated of the result.
#[verifier::external_body]
fn element_property<'b, 'a>(e: &'b ClassElement<'a>) -> Option<&'b PropertyDefinition<'a>> {
    match e {
        ClassElement::PropertyDefinition(p) => Some(p),
        _ => None,
    }
}

/// The fields `key`, `optional`, `type_annotation` (its span) and
/// `span.start` of an `oxc_ast::ast::PropertyDefinition`. Nothing is stated
/// of the result.
#[verifier::external_body]
fn definition_parts<'b, 'a>(p: &'b PropertyDefinition<'a>) -> PropParts<'b, 'a> {
    PropParts {
        key: &p.key,
        optional: p.optional,
        annotation: p.type_annotation.as_ref().map(|a| (a.span.start, a.span.end)),
        start: p.span.start,
    }
}

/// Tells the variants of `oxc_ast::ast::PropertyKey` apart: an identifier's
/// name, a string literal's value, or another kind of key. Nothing is stated
/// of the result.
#[verifier::external_body]
fn key_node(k: &PropertyKey) -> TsKeyNode {
    match k {
        PropertyKey::StaticIdentifier(id) => TsKeyNode::Identifier(id.name.as_str().to_string()),
        PropertyKey::StringLiteral(lit) => TsKeyNode::StringLiteral(lit.value.as_str().to_string()),
        _ => TsKeyNode::Other,
    }
}

/// The fields `id` (its name), `span.start`, `extends` (its length),
/// `type_parameters` (its span) and `body.body` of an
/// `oxc_ast::ast::TSInterfaceDeclaration`. Nothing is stated of the result.
#[verifier::external_body]
fn interface_parts<'b, 'a>(i: &'b TSInterfaceDeclaration<'a>) -> InterfaceParts<'b, 'a> {
    InterfaceParts {
        name: i.id.name.as_str().to_string(),
        start: i.span.start,
        extends: i.extends.len(),
        type_params: i.type_parameters.as_ref().map(|tp| (tp.span.start, tp.span.end)),
        members: i.body.body.as_slice(),
    }
}

/// The variant `TSSignature::TSPropertySignature`, if the member is one.
/// Nothing is stated of the result.
#[verifier::external_body]
fn signature_property<'b, 'a>(s: &'b TSSignature<'a>) -> Option<&'b TSPropertySignature<'a>> {
    match s {
        TSSignature::TSPropertySignature(p) => Some(p),
        _ => None,
    }
}

/// The fields `key`, `optional`, `type_annotation` (its span) and
/// `span.start` of an `oxc_ast::ast::TSPropertySignature`. Nothing is stated
/// of the result.
#[verifier::external_body]
fn signature_parts<'b, 'a>(p: &'b TSPropertySignature<'a>) -> PropParts<'b, 'a> {
    PropParts {
        key: &p.key,
        optional: p.optional,
        annotation: p.type_annotation.as_ref().map(|a| (a.span.start, a.span.end)),
        start: p.span.start,
    }
}

/// The fields `id` (its name), `span.start`, `type_parameters` (its span)
/// and `type_annotation` of an `oxc_ast::ast::TSTypeAliasDeclaration`.
/// Nothing is stated of the result.
#[verifier::external_body]
fn alias_parts<'b, 'a>(a: &'b TSTypeAliasDeclaration<'a>) -> AliasParts<'b, 'a> {
    AliasParts {
        name: a.id.name.as_str().to_string(),
        start: a.span.start,
        type_params: a.type_parameters.as_ref().map(|tp| (tp.span.start, tp.span.end)),
        aliased: &a.type_annotation,
    }
}

/// The variant `TSType::TSTypeLiteral` (its `members`), if the type is an
/// object type literal. Nothing is stated of the result.
#[verifier::external_body]
fn type_literal_members<'b, 'a>(t: &'b TSType<'a>) -> Option<&'b [TSSignature<'a>]> {
    match t {
        TSType::TSTypeLiteral(lit) => Some(lit.members.as_slice()),
        _ => None,
    }
}

fn prop_node(parts: PropParts, is_static: bool) -> (r: TsPropNode)
    ensures
        r.is_static == is_static,
        r.optional == parts.optional,
        r.annotation == parts.annotation,
        r.start == parts.start,
{
    TsPropNode {
        key: key_node(parts.key),
        is_static,
        optional: parts.optional,
        annotation: parts.annotation,
        start: parts.start,
    }
}

fn class_members<F: Fn(&PropertyDefinition) -> bool>(elements: &[ClassElement], is_static: &F) -> (r: Vec<TsMemberNode>)
    requires
        forall|p: &PropertyDefinition| #[trigger] is_static.requires((p,)),
    ensures
        r@.len() == elements@.len(),
{
    let mut v: Vec<TsMemberNode> = Vec::new();
    let mut i: usize = 0;
    while i < elements.len()
        invariant
            i <= elements@.len(),
            v@.len() == i,
            forall|p: &PropertyDefinition| #[trigger] is_static.requires((p,)),
        decreases elements@.len() - i,
    {
        let m = match element_property(&elements[i]) {
            Some(p) => TsMemberNode::Property(prop_node(definition_parts(p), is_static(p))),
            None => TsMemberNode::Other,
        };
        v.push(m);
        i = i + 1;
    }
    v
}

fn signature_members(members: &[TSSignature]) -> (r: Vec<TsMemberNode>)
    ensures
        r@.len() == members@.len(),
        forall|i: int| 0 <= i < r@.len() ==> (#[trigger] r@[i] matches TsMemberNode::Property(p) ==> !p.is_static),
{
    let mut v: Vec<TsMemberNode> = Vec::new();
    let mut i: usize = 0;
    while i < members.len()
        invariant
            i <= members@.len(),
            v@.len() == i,
            forall|j: int| 0 <= j < v@.len() ==> (#[trigger] v@[j] matches TsMemberNode::Property(p) ==> !p.is_static),
        decreases members@.len() - i,
    {
        let m = match signature_property(&members[i]) {
            Some(p) => TsMemberNode::Property(prop_node(signature_parts(p), false)),
            None => TsMemberNode::Other,
        };
        v.push(m);
        i = i + 1;
    }
    v
}

fn class_node<F: Fn(&PropertyDefinition) -> bool>(c: &Class, is_static: &F) -> (r: TsClassNode)
    requires
        forall|p: &PropertyDefinition| #[trigger] is_static.requires((p,)),
{
    let parts = class_parts(c);
    TsClassNode {
        name: parts.name,
        start: parts.start,
        has_super_class: parts.super_class.is_some(),
        implements: parts.implements,
        type_params: parts.type_params,
        members: class_members(parts.elements, is_static),
    }
}

fn interface_node(i: &TSInterfaceDeclaration) -> (r: TsInterfaceNode) {
    let parts = interface_parts(i);
    TsInterfaceNode {
        name: parts.name,
        start: parts.start,
        extends: parts.extends,
        type_params: parts.type_params,
        members: signature_members(parts.members),
    }
}

fn alias_node(a: &TSTypeAliasDeclaration) -> (r: TsAliasNode) {
    let parts = alias_parts(a);
    let literal = match type_literal_members(parts.aliased) {
        Some(ms) => Some(signature_members(ms)),
        None => None,
    };
    TsAliasNode { name: parts.name, start: parts.start, type_params: parts.type_params, literal }
}

fn decl_node<F: Fn(&PropertyDefinition) -> bool>(d: &Declaration, is_static: &F) -> (r: TsDeclNode)
    requires
        forall|p: &PropertyDefinition| #[trigger] is_static.requires((p,)),
{
    match declaration_part(d) {
        DeclPart::Class(c) => TsDeclNode::Class(class_node(c, is_static)),
        DeclPart::Interface(i) => TsDeclNode::Interface(interface_node(i)),
        DeclPart::Alias(a) => TsDeclNode::TypeAlias(alias_node(a)),
        DeclPart::Other => TsDeclNode::Other,
    }
}

fn stmt_node<F: Fn(&PropertyDefinition) -> bool>(st: &Statement, is_static: &F) -> (r: TsStmtNode)
    requires
        forall|p: &PropertyDefinition| #[trigger] is_static.requires((p,)),
{
    match statement_part(st) {
        StmtPart::Class(c) => TsStmtNode::Decl(TsDeclNode::Class(class_node(c, is_static))),
        StmtPart::Interface(i) => TsStmtNode::Decl(TsDeclNode::Interface(interface_node(i))),
        StmtPart::Alias(a) => TsStmtNode::Decl(TsDeclNode::TypeAlias(alias_node(a))),
        StmtPart::ExportNamed(d) => TsStmtNode::ExportNamed(
            match d {
                Some(d) => Some(decl_node(d, is_static)),
                None => None,
            },
        ),
        StmtPart::ExportDefault(k) => match export_default_class(k) {
            Some(c) => TsStmtNode::ExportDefaultClass(class_node(c, is_static)),
            None => TsStmtNode::Other,
        },
        StmtPart::Other => TsStmtNode::Other,
    }
}

/// `oxc_parser::Parser::new(..).parse()` on `src` as TypeScript
/// (`SourceType::ts()`, with JSX where `is_tsx`, which is `SourceType::tsx()`),
/// with each top-level statement of the program's `body` read by `stmt_node`:
/// the nodes are those that `ts_nodes_of` names, and each `static` mark of a
/// class property is what `is_static` gave for its property definition.
#[verifier::external_body]
fn parse_statement_nodes<F: Fn(&PropertyDefinition) -> bool>(src: &str, is_tsx: bool, is_static: &F) -> (r: Vec<
    TsStmtNode,
>)
    requires
        forall|p: &PropertyDefinition| #[trigger] is_static.requires((p,)),
    ensures
        stmts_same(r@, ts_nodes_of(src@, is_tsx)),
        static_marks_from(*is_static, r@),
{
    let alloc = Allocator::default();
    let program = Parser::new(&alloc, src, SourceType::ts().with_jsx(is_tsx)).parse().program;
    program.body.iter().map(|st| stmt_node(st, is_static)).collect()
}

/// Parses `src` as TypeScript (TSX where `is_tsx`) and reads its top-level
/// statements into plain nodes, one node per statement, in order.
pub(crate) fn ts_statement_nodes<F: Fn(&PropertyDefinition) -> bool>(src: &str, is_tsx: bool, is_static: &F) -> (r: Vec<TsStmtNode>)
    requires
        forall|p: &PropertyDefinition| #[trigger] is_static.requires((p,)),
    ensures
        stmts_same(r@, ts_nodes_of(src@, is_tsx)),
        static_marks_from(*is_static, r@),
{
    parse_statement_nodes(src, is_tsx, is_static)
}

} // verus!
