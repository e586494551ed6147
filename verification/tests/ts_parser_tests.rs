use lineup::ts_parser::{
    byte_to_line, declarations_from_statements, doc_comments_before, field_name_from_key, line_at,
    parse_ts_declarations, strip_colon, type_str_from_annotation, TsClassNode, TsDeclKind, TsDeclNode,
    TsDeclaration, TsKeyNode, TsMemberNode, TsPropNode, TsStmtNode,
};
use oxc_ast::ast::PropertyDefinition;

fn parse(src: &str, is_tsx: bool) -> Vec<TsDeclaration> {
    parse_ts_declarations(src, is_tsx, |_p: &PropertyDefinition| false).expect("spans fall on characters")
}

#[test]
fn line_numbers_and_lines() {
    assert_eq!(byte_to_line("a\nb\nc", 0), 1);
    assert_eq!(byte_to_line("a\nb\nc", 2), 2);
    assert_eq!(byte_to_line("a\nb\nc", 4), 3);
    assert_eq!(byte_to_line("a\nb", 100), 2);
    assert_eq!(line_at("ab\ncd\nef", 4), "cd");
    assert_eq!(line_at("ab\ncd\nef", 0), "ab");
    assert_eq!(line_at("ab\ncd\n", 6), "");
    assert_eq!(line_at("ab\ncd", 50), "cd");
}

#[test]
fn comments_above_a_declaration() {
    let src = "let a = 1;\n// one\n  // two\nclass A {}";
    let start = src.find("class").unwrap();
    assert_eq!(doc_comments_before(src, start), vec!["// one".to_string(), "  // two".to_string()]);
    let src2 = "// far\n\nclass B {}";
    assert!(doc_comments_before(src2, src2.find("class").unwrap()).is_empty());
}

#[test]
fn annotations_lose_their_colon() {
    assert_eq!(strip_colon(": number"), "number");
    assert_eq!(strip_colon("?: string "), "string");
    assert_eq!(strip_colon("::x"), "x");
    assert_eq!(strip_colon("Map<string, number>"), "Map<string, number>");
    let src = "x: Array<number>;";
    assert_eq!(type_str_from_annotation(1, 16, src), "Array<number>");
}

#[test]
fn keys_with_names() {
    assert_eq!(field_name_from_key(&TsKeyNode::Identifier("a".to_string())).as_deref(), Some("a"));
    assert_eq!(field_name_from_key(&TsKeyNode::StringLiteral("b-c".to_string())).as_deref(), Some("b-c"));
    assert_eq!(field_name_from_key(&TsKeyNode::Other), None);
}

#[test]
fn class_with_comment_and_fields() {
    let src = "// A point.\nclass Point {\n  a: string;\n  b: number;\n  c?: string;\n  d;\n  move() {}\n  #p: number;\n}\n";
    let decls = parse(src, false);
    assert_eq!(decls.len(), 1);
    let d = &decls[0];
    assert_eq!(d.name, "Point");
    assert_eq!(d.kind, TsDeclKind::Class);
    assert_eq!(d.kind.as_str(), "class");
    assert_eq!(d.type_params, None);
    assert_eq!(d.doc_comments, vec!["// A point.".to_string()]);
    assert_eq!(d.line_number, 2);
    assert!(!d.has_extends);
    let names: Vec<&str> = d.fields.iter().map(|f| f.name.as_str()).collect();
    assert_eq!(names, vec!["a", "b", "c", "d"]);
    assert_eq!(d.fields[0].type_str, "string");
    assert_eq!(d.fields[0].line_number, 3);
    assert_eq!(d.fields[0].raw_line, "  a: string;");
    assert_eq!(d.fields[1].type_str, "number");
    assert!(d.fields[2].optional);
    assert_eq!(d.fields[2].type_str, "string");
    assert_eq!(d.fields[3].type_str, "any");
}

#[test]
fn interfaces_aliases_and_exports() {
    let src = "export interface Shape<T> extends Base {\n  kind: T;\n  'quoted-key': number;\n  area(): number;\n}\ntype Plain = string;\ntype Obj = { n: number; s: string };\nexport default class D extends E { v: boolean; }\nexport type Pt = { x: number };\n";
    let decls = parse(src, false);
    let names: Vec<&str> = decls.iter().map(|d| d.name.as_str()).collect();
    assert_eq!(names, vec!["Shape", "Obj", "D", "Pt"]);
    let shape = &decls[0];
    assert_eq!(shape.kind, TsDeclKind::Interface);
    assert_eq!(shape.type_params.as_deref(), Some("<T>"));
    assert!(shape.has_extends);
    assert_eq!(shape.fields.len(), 2);
    assert_eq!(shape.fields[1].name, "quoted-key");
    assert!(shape.doc_comments.is_empty());
    let obj = &decls[1];
    assert_eq!(obj.kind, TsDeclKind::TypeAlias);
    assert_eq!(obj.kind.as_str(), "type");
    assert_eq!(obj.line_number, 7);
    assert_eq!(obj.fields.len(), 2);
    assert_eq!(obj.fields[0].raw_line, "type Obj = { n: number; s: string };");
    assert!(!obj.has_extends);
    let d = &decls[2];
    assert_eq!(d.kind, TsDeclKind::Class);
    assert!(d.has_extends);
    assert_eq!(d.fields[0].type_str, "boolean");
    assert_eq!(decls[3].fields[0].name, "x");
}

#[test]
fn tsx_sources_parse_with_jsx() {
    let src = "class View {\n  label: string;\n  render() { return <div>{this.label}</div>; }\n}\n";
    let decls = parse(src, true);
    assert_eq!(decls.len(), 1);
    assert_eq!(decls[0].fields.len(), 1);
}

#[test]
fn nested_declarations_are_not_read() {
    let src = "function f() {\n  class Inner { a: number; }\n}\nnamespace N { export interface I { b: string } }\n";
    assert!(parse(src, false).is_empty());
}

#[test]
fn static_properties_are_no_fields() {
    let src = "class C {\n  static x: number;\n  y: string;\n}\n";
    let x = src.find("static").unwrap() as u32;
    let xa = src.find(": number").unwrap() as u32;
    let y = src.find("y:").unwrap() as u32;
    let ya = src.find(": string").unwrap() as u32;
    let prop = |name: &str, is_static: bool, start: u32, ann: u32| {
        TsMemberNode::Property(TsPropNode {
            key: TsKeyNode::Identifier(name.to_string()),
            is_static,
            optional: false,
            annotation: Some((ann, ann + 8)),
            start,
        })
    };
    let class = TsClassNode {
        name: Some("C".to_string()),
        start: 0,
        has_super_class: false,
        implements: 0,
        type_params: None,
        members: vec![prop("x", true, x, xa), prop("y", false, y, ya), TsMemberNode::Other],
    };
    let stmts = vec![TsStmtNode::Decl(TsDeclNode::Class(class)), TsStmtNode::Other];
    let decls = declarations_from_statements(src, &stmts).unwrap();
    assert_eq!(decls.len(), 1);
    assert_eq!(decls[0].fields.len(), 1);
    assert_eq!(decls[0].fields[0].name, "y");
    assert_eq!(decls[0].fields[0].type_str, "string");
    assert_eq!(decls[0].fields[0].line_number, 3);
}

#[test]
fn anonymous_classes_and_offsets_inside_characters() {
    let anonymous = TsClassNode { name: None, start: 0, has_super_class: false,
        implements: 0, type_params: None, members: vec![] };
    let stmts = vec![TsStmtNode::ExportDefaultClass(anonymous)];
    assert!(declarations_from_statements("export default class {}", &stmts).unwrap().is_empty());

    let src = "é class A {}";
    let inside = TsClassNode { name: Some("A".to_string()), start: 1, has_super_class: false,
        implements: 0, type_params: None, members: vec![] };
    let stmts = vec![TsStmtNode::Decl(TsDeclNode::Class(inside))];
    assert!(declarations_from_statements(src, &stmts).is_none());
}

/// Reads the `static` modifier from the source text at the property's start
/// (the test sources put no decorator or other modifier before it).
fn parse_reading_static(src: &str) -> Vec<TsDeclaration> {
    parse_ts_declarations(src, false, |p: &PropertyDefinition| src[p.span.start as usize..].starts_with("static "))
        .unwrap()
}

#[test]
fn class_fields_skip_static_private_and_methods() {
    let src = "export class A {\n  x: number;\n  static y: string;\n  z?: string;\n  #p: number;\n  w = 1;\n}\n";
    let r = parse_reading_static(src);
    assert_eq!(r.len(), 1);
    assert_eq!(r[0].name, "A");
    assert_eq!(r[0].kind, TsDeclKind::Class);
    assert!(!r[0].has_extends);
    assert_eq!(r[0].line_number, 1);
    let fields: Vec<(&str, &str, bool)> =
        r[0].fields.iter().map(|f| (f.name.as_str(), f.type_str.as_str(), f.optional)).collect();
    assert_eq!(fields, vec![("x", "number", false), ("z", "string", true), ("w", "any", false)]);
    assert_eq!(r[0].fields[0].raw_line, "  x: number;");
    assert_eq!(r[0].fields[0].line_number, 2);
}

#[test]
fn interfaces_aliases_and_default_classes() {
    let src = "interface I extends B { a: string }\ntype T<K> = { n: number; k: K };\ntype U = string;\nexport default class D { q: number }\n";
    let r = parse_reading_static(src);
    assert_eq!(r.len(), 3);
    assert_eq!((r[0].name.as_str(), r[0].kind, r[0].has_extends), ("I", TsDeclKind::Interface, true));
    assert_eq!(r[0].fields.len(), 1);
    assert_eq!((r[0].fields[0].name.as_str(), r[0].fields[0].type_str.as_str()), ("a", "string"));
    assert_eq!((r[1].name.as_str(), r[1].kind, r[1].type_params.as_deref()), ("T", TsDeclKind::TypeAlias, Some("<K>")));
    let names: Vec<&str> = r[1].fields.iter().map(|f| f.name.as_str()).collect();
    assert_eq!(names, vec!["n", "k"]);
    assert_eq!((r[2].name.as_str(), r[2].kind, r[2].line_number), ("D", TsDeclKind::Class, 4));
}

#[test]
fn exported_and_plain_declarations_agree() {
    for s in ["class P { a: number; b?: string }", "interface Q { c: boolean }", "type R<T> = { d: T }"] {
        let exported = format!("export {}", s);
        let a = parse_reading_static(&exported);
        let b = parse_reading_static(s);
        assert_eq!(a.len(), 1);
        assert_eq!(b.len(), 1);
        assert_eq!((&a[0].name, a[0].kind, &a[0].type_params), (&b[0].name, b[0].kind, &b[0].type_params));
        assert_eq!((a[0].has_extends, a[0].line_number), (b[0].has_extends, b[0].line_number));
        let fa: Vec<(&str, &str, bool, usize)> =
            a[0].fields.iter().map(|f| (f.name.as_str(), f.type_str.as_str(), f.optional, f.line_number)).collect();
        let fb: Vec<(&str, &str, bool, usize)> =
            b[0].fields.iter().map(|f| (f.name.as_str(), f.type_str.as_str(), f.optional, f.line_number)).collect();
        assert_eq!(fa, fb);
    }
}

#[test]
fn classes_that_implement_are_flagged() {
    let src = "class A implements I { a: number }\nclass B { b: number }\n";
    let r = parse_reading_static(src);
    assert_eq!(r.len(), 2);
    assert!(r[0].has_extends);
    assert!(!r[1].has_extends);
}
