use lineup::go_parser::parse_structs;

#[test]
fn struct_with_docs_tags_and_comments() {
    let src = "package user\n\n// User is a user.\n// It has an id.\ntype User struct {\n\tID     int64  `json:\"id\"` // the id\n\tName   string\n\n\t// Active marks live users.\n\tActive bool\n}\n";
    let structs = parse_structs(src);
    assert_eq!(structs.len(), 1);
    let s = &structs[0];
    assert_eq!(s.name, "User");
    assert_eq!(s.type_params, None);
    assert_eq!(s.line_number, 5);
    assert_eq!(s.doc_comments, vec!["// User is a user.".to_string(), "// It has an id.".to_string()]);
    assert_eq!(s.fields.len(), 3);
    let id = &s.fields[0];
    assert_eq!(id.name, "ID");
    assert_eq!(id.type_str, "int64");
    assert_eq!(id.tag.as_deref(), Some("`json:\"id\"`"));
    assert_eq!(id.inline_comment.as_deref(), Some("// the id"));
    assert_eq!(id.line_number, 6);
    assert_eq!(id.raw_line, "\tID     int64  `json:\"id\"` // the id");
    assert_eq!(s.fields[1].name, "Name");
    assert_eq!(s.fields[1].type_str, "string");
    assert_eq!(s.fields[1].tag, None);
    assert_eq!(s.fields[1].line_number, 7);
    assert_eq!(s.fields[2].name, "Active");
    assert_eq!(s.fields[2].line_number, 10);
}

#[test]
fn generic_struct_header() {
    let src = "type Pair[K comparable, V any] struct {\n\tKey K\n\tVal V\n}\n";
    let s = &parse_structs(src)[0];
    assert_eq!(s.name, "Pair");
    assert_eq!(s.type_params.as_deref(), Some("K comparable, V any"));
    assert_eq!(s.fields.len(), 2);
    assert_eq!(s.fields[1].type_str, "V");
}

#[test]
fn brace_on_the_next_line() {
    let src = "type Foo struct\n{\n\tA int\n}\ntype Bar struct\nvar x = 1\n";
    let structs = parse_structs(src);
    assert_eq!(structs.len(), 1);
    assert_eq!(structs[0].name, "Foo");
    assert_eq!(structs[0].line_number, 1);
    assert_eq!(structs[0].fields.len(), 1);
    assert_eq!(structs[0].fields[0].line_number, 3);
}

#[test]
fn unexported_structs_are_skipped() {
    let src = "type foo struct {\n\tA int\n}\ntype Baz struct{}\n";
    let structs = parse_structs(src);
    assert_eq!(structs.len(), 1);
    assert_eq!(structs[0].name, "Baz");
    assert!(structs[0].fields.is_empty());
}

#[test]
fn embedded_fields_and_nested_bodies() {
    let src = "type Outer struct {\n\t*pkg.Base\n\tInner struct {\n\t\tX int\n\t}\n\tY []string `json:\"y\"`\n\tfn func(a, b int) error\n}\n";
    let s = &parse_structs(src)[0];
    let names: Vec<&str> = s.fields.iter().map(|f| f.name.as_str()).collect();
    // Lines inside the nested body, and the line that opens it, are no fields.
    assert_eq!(names, vec!["Base", "Y", "fn"]);
    assert_eq!(s.fields[0].type_str, "*pkg.Base");
    assert_eq!(s.fields[1].type_str, "[]string");
    assert_eq!(s.fields[1].tag.as_deref(), Some("`json:\"y\"`"));
    assert_eq!(s.fields[2].type_str, "func(a, b int) error");
}

#[test]
fn comment_markers_inside_tags_are_kept() {
    let src = "type Link struct {\n\tURL string `json:\"url\" default:\"http://x\"`\n}\n";
    let f = &parse_structs(src)[0].fields[0];
    assert_eq!(f.inline_comment, None);
    assert_eq!(f.tag.as_deref(), Some("`json:\"url\" default:\"http://x\"`"));
    assert_eq!(f.type_str, "string");
}

#[test]
fn unterminated_struct_runs_to_the_end() {
    let src = "type Open struct {\n\tA int\n\tB bool";
    let s = &parse_structs(src)[0];
    assert_eq!(s.fields.len(), 2);
    assert_eq!(s.fields[1].name, "B");
}

#[test]
fn crlf_lines() {
    let src = "type W struct {\r\n\tA int\r\n}\r\n";
    let s = &parse_structs(src)[0];
    assert_eq!(s.fields.len(), 1);
    assert_eq!(s.fields[0].raw_line, "\tA int");
}
