use lineup::analyzer::{
    analyze_files, analyze_ts_files, arch_from_str, ts_type_info, try_analyze_files, type_info,
    type_info_checked, Arch, AnalyzedStruct, Registry, TypeInfo,
};
use lineup::go_parser::{GoField, GoFile, GoStruct};
use lineup::ts_parser::{TsDeclKind, TsDeclaration, TsField, TsFile};

fn field(name: &str, type_str: &str, line: usize) -> GoField {
    GoField {
        name: name.to_string(),
        type_str: type_str.to_string(),
        tag: None,
        inline_comment: None,
        line_number: line,
        raw_line: format!("\t{} {}", name, type_str),
    }
}

fn go_struct(name: &str, fields: Vec<GoField>) -> GoStruct {
    GoStruct { name: name.to_string(), type_params: None, fields, doc_comments: vec![], line_number: 1 }
}

fn size_of(t: &str) -> (u64, u64, bool) {
    let info = type_info(t, Arch::Amd64, &Registry::new());
    (info.size, info.align, info.approximate)
}

#[test]
fn go_type_table() {
    for t in ["bool", "byte", "int8", "uint8"] {
        assert_eq!(size_of(t), (1, 1, false), "{}", t);
    }
    for t in ["int16", "uint16"] {
        assert_eq!(size_of(t), (2, 2, false), "{}", t);
    }
    for t in ["int32", "uint32", "float32", "rune"] {
        assert_eq!(size_of(t), (4, 4, false), "{}", t);
    }
    for t in ["int64", "uint64", "float64", "complex64", "uintptr", "int", "uint"] {
        assert_eq!(size_of(t), (8, 8, false), "{}", t);
    }
    assert_eq!(size_of("complex128"), (16, 8, false));
    for t in ["string", "error", "interface{}", "any"] {
        assert_eq!(size_of(t), (16, 8, false), "{}", t);
    }
}

#[test]
fn go_reference_types() {
    assert_eq!(size_of("*Node"), (8, 8, false));
    assert_eq!(size_of("[]byte"), (24, 8, false));
    assert_eq!(size_of("map[string]int"), (8, 8, false));
    assert_eq!(size_of("chan int"), (8, 8, false));
    assert_eq!(size_of("chan"), (8, 8, false));
    assert_eq!(size_of("func(int) error"), (8, 8, false));
    assert_eq!(size_of("func (x int)"), (8, 8, false));
    assert_eq!(size_of("  int32  "), (4, 4, false));
}

#[test]
fn go_arrays() {
    assert_eq!(size_of("[3]int16"), (6, 2, false));
    assert_eq!(size_of("[4][2]int32"), (32, 4, false));
    assert_eq!(size_of("[0]int64"), (0, 8, false));
    // A length that is no number leaves the type unresolved.
    assert_eq!(size_of("[N]int64"), (8, 8, true));
}

#[test]
fn go_array_size_overflow_is_refused() {
    let r = type_info_checked("[18446744073709551615]int64", Arch::Amd64, &Registry::new());
    assert!(r.is_none());
}

#[test]
fn go_unresolved_and_registered_types() {
    assert_eq!(size_of("T"), (8, 8, true));
    assert_eq!(size_of("pkg.Thing"), (8, 8, true));
    let mut reg = Registry::new();
    reg.insert("Thing".to_string(), TypeInfo { size: 12, align: 4, approximate: false });
    let info = type_info("pkg.Thing", Arch::Arm64, &reg);
    assert_eq!((info.size, info.align, info.approximate), (12, 4, false));
    let info = type_info("Thing", Arch::Amd64, &reg);
    assert_eq!((info.size, info.align, info.approximate), (12, 4, false));
}

#[test]
fn registry_replaces_earlier_record() {
    let mut reg = Registry::new();
    reg.insert("A".to_string(), TypeInfo { size: 1, align: 1, approximate: false });
    reg.insert("A".to_string(), TypeInfo { size: 16, align: 8, approximate: true });
    let a: Vec<char> = "A".chars().collect();
    let b: Vec<char> = "B".chars().collect();
    let got = reg.get(&a).unwrap();
    assert_eq!((got.size, got.align, got.approximate), (16, 8, true));
    assert!(reg.get(&b).is_none());
}

#[test]
fn arch_names() {
    assert_eq!(Arch::Amd64.as_str(), "amd64");
    assert_eq!(Arch::Arm64.as_str(), "arm64");
    assert_eq!(arch_from_str("arm64"), Arch::Arm64);
    assert_eq!(arch_from_str("amd64"), Arch::Amd64);
    assert_eq!(arch_from_str("x86"), Arch::Amd64);
    let parsed: Arch = "arm64".parse().unwrap();
    assert_eq!(parsed, Arch::Arm64);
}

fn only(results: &[(String, AnalyzedStruct)]) -> &AnalyzedStruct {
    assert_eq!(results.len(), 1);
    &results[0].1
}

#[test]
fn padded_go_struct_is_reordered() {
    let files = vec![GoFile {
        path: "a.go".to_string(),
        structs: vec![go_struct("S", vec![field("a", "bool", 2), field("b", "int64", 3), field("c", "bool", 4)])],
    }];
    let results = analyze_files(&files, Arch::Amd64);
    assert_eq!(results[0].0, "a.go");
    let s = only(&results);
    assert_eq!(s.name, "S");
    assert_eq!(s.current_size, 24);
    assert_eq!(s.optimal_size, 16);
    assert_eq!(s.bytes_saved, 8);
    assert_eq!(s.current_def, "type S struct {\n\ta bool\n\tb int64\n\tc bool\n}");
    assert_eq!(
        s.optimized_def,
        "// Reordered for optimal memory alignment\ntype S struct {\n\tb int64\n\ta bool\n\tc bool\n}"
    );
    assert!(!s.has_generics);
    assert!(!s.has_embedded);
    assert!(!s.approximate);
    assert_eq!(s.declaration_kind, "struct");
    assert_eq!(s.line_number, 1);
}

#[test]
fn well_ordered_struct_saves_nothing() {
    let files = vec![GoFile {
        path: "b.go".to_string(),
        structs: vec![go_struct("T", vec![field("id", "int64", 2), field("ok", "bool", 3)])],
    }];
    let s = analyze_files(&files, Arch::Amd64).remove(0).1;
    assert_eq!((s.current_size, s.optimal_size, s.bytes_saved), (16, 16, 0));
}

#[test]
fn names_break_ties_in_the_suggested_order() {
    let files = vec![GoFile {
        path: "c.go".to_string(),
        structs: vec![go_struct("U", vec![field("z", "int32", 2), field("a", "int32", 3), field("m", "int64", 4)])],
    }];
    let s = analyze_files(&files, Arch::Amd64).remove(0).1;
    assert_eq!(
        s.optimized_def,
        "// Reordered for optimal memory alignment\ntype U struct {\n\tm int64\n\ta int32\n\tz int32\n}"
    );
    assert_eq!((s.current_size, s.optimal_size), (16, 16));
}

#[test]
fn empty_structs_are_not_reported() {
    let files = vec![GoFile { path: "d.go".to_string(), structs: vec![go_struct("Empty", vec![])] }];
    assert!(analyze_files(&files, Arch::Amd64).is_empty());
}

#[test]
fn struct_sizes_come_from_the_registry() {
    let inner = go_struct("Inner", vec![field("x", "int32", 2), field("y", "int8", 3)]);
    let outer = go_struct("Outer", vec![field("flag", "bool", 6), field("in", "Inner", 7), field("z", "bool", 8)]);
    let files = vec![GoFile { path: "e.go".to_string(), structs: vec![outer, inner] }];
    let results = analyze_files(&files, Arch::Amd64);
    assert_eq!(results.len(), 2);
    let o = &results[0].1;
    assert_eq!(o.name, "Outer");
    assert_eq!((o.current_size, o.optimal_size, o.bytes_saved), (16, 12, 4));
    assert!(!o.approximate);
    let i = &results[1].1;
    assert_eq!((i.current_size, i.optimal_size), (8, 8));
}

#[test]
fn embedded_and_generic_structs_are_flagged() {
    let mut embedded = field("Base", "*pkg.Base", 2);
    embedded.raw_line = "\t*pkg.Base".to_string();
    let s = GoStruct {
        name: "G".to_string(),
        type_params: Some("T any".to_string()),
        fields: vec![embedded, field("v", "T", 3)],
        doc_comments: vec!["// G is generic.".to_string()],
        line_number: 5,
    };
    let files = vec![GoFile { path: "f.go".to_string(), structs: vec![s] }];
    let a = analyze_files(&files, Arch::Amd64).remove(0).1;
    assert!(a.has_generics);
    assert!(a.has_embedded);
    assert!(a.approximate);
    assert_eq!(a.type_params.as_deref(), Some("T any"));
    assert_eq!(a.current_def, "// G is generic.\ntype G[T any] struct {\n\t*pkg.Base\n\tv T\n}");
}

#[test]
fn go_analysis_with_overflowing_array_is_refused() {
    let files = vec![GoFile {
        path: "g.go".to_string(),
        structs: vec![go_struct("Huge", vec![field("a", "[18446744073709551615]int64", 2)])],
    }];
    assert!(try_analyze_files(&files, Arch::Amd64).is_none());
}

fn ts_field(name: &str, type_str: &str, line: usize) -> TsField {
    TsField {
        name: name.to_string(),
        type_str: type_str.to_string(),
        optional: false,
        line_number: line,
        raw_line: format!("  {}: {};", name, type_str),
    }
}

fn ts_decl(kind: TsDeclKind, fields: Vec<TsField>) -> TsDeclaration {
    TsDeclaration {
        name: "P".to_string(),
        kind,
        type_params: None,
        fields,
        doc_comments: vec![],
        line_number: 1,
        has_extends: false,
    }
}

#[test]
fn v8_type_model() {
    let t = |s: &str| {
        let i: TypeInfo = ts_type_info(s);
        (i.size, i.align, i.approximate)
    };
    assert_eq!(t("number"), (8, 8, false));
    assert_eq!(t(" number "), (8, 8, false));
    for s in ["any", "unknown", "never", "void"] {
        assert_eq!(t(s), (4, 4, true), "{}", s);
    }
    for s in ["string", "boolean", "number[]", "Foo"] {
        assert_eq!(t(s), (4, 4, false), "{}", s);
    }
}

#[test]
fn interleaved_class_is_reordered() {
    let d = ts_decl(TsDeclKind::Class, vec![ts_field("a", "string", 2), ts_field("b", "number", 3), ts_field("c", "string", 4)]);
    let files = vec![TsFile { path: "p.ts".to_string(), declarations: vec![d] }];
    let results = analyze_ts_files(&files);
    assert_eq!(results[0].0, "p.ts");
    let s = only(&results);
    assert_eq!((s.current_size, s.optimal_size, s.bytes_saved), (24, 16, 8));
    assert_eq!(s.current_def, "class P {\n\ta: string;\n\tb: number;\n\tc: string;\n}");
    assert_eq!(
        s.optimized_def,
        "// Reordered for optimal V8 memory layout\nclass P {\n\tb: number;\n\ta: string;\n\tc: string;\n}"
    );
    assert_eq!(s.declaration_kind, "class");
    assert!(!s.approximate);
}

#[test]
fn type_alias_definition_ends_with_semicolon() {
    let mut d = ts_decl(TsDeclKind::TypeAlias, vec![ts_field("n", "number", 2), ts_field("s", "string", 3)]);
    d.type_params = Some("<T>".to_string());
    let files = vec![TsFile { path: "q.ts".to_string(), declarations: vec![d] }];
    let s = analyze_ts_files(&files).remove(0).1;
    assert_eq!(s.current_def, "type P<T> = {\n\tn: number;\n\ts: string;\n};");
    assert_eq!((s.current_size, s.optimal_size, s.bytes_saved), (16, 16, 0));
    assert_eq!(s.declaration_kind, "type");
    assert!(s.has_generics);
    assert!(s.approximate);
}

#[test]
fn interface_with_extends_is_approximate() {
    let mut d = ts_decl(TsDeclKind::Interface, vec![ts_field("x", "any", 2)]);
    d.has_extends = true;
    d.doc_comments = vec!["// Shape.".to_string()];
    let files = vec![TsFile { path: "r.ts".to_string(), declarations: vec![d] }];
    let s = analyze_ts_files(&files).remove(0).1;
    assert!(s.has_embedded);
    assert!(s.approximate);
    assert_eq!(s.declaration_kind, "interface");
    assert_eq!(s.current_def, "// Shape.\ninterface P {\n\tx: any;\n}");
    assert_eq!(s.optimized_def, "// Shape.\n// Reordered for optimal V8 memory layout\ninterface P {\n\tx: any;\n}");
}

#[test]
fn declarations_without_fields_are_not_reported() {
    let files = vec![TsFile { path: "s.ts".to_string(), declarations: vec![ts_decl(TsDeclKind::Class, vec![])] }];
    assert!(analyze_ts_files(&files).is_empty());
}

#[test]
fn struct_sizes_resolve_through_a_chain() {
    let files = vec![GoFile {
        path: "a.go".to_string(),
        structs: vec![
            go_struct("A", vec![field("X", "B", 2), field("F", "bool", 3)]),
            go_struct("B", vec![field("Y", "C", 6)]),
            go_struct("C", vec![field("Z", "D", 9)]),
            go_struct("D", vec![field("S", "string", 12)]),
        ],
    }];
    let results = analyze_files(&files, Arch::Amd64);
    assert_eq!(results.len(), 4);
    let a = &results[0].1;
    assert_eq!(a.name, "A");
    assert_eq!(a.current_size, 24);
    assert!(!a.approximate);
    for r in &results[1..] {
        assert_eq!(r.1.current_size, 16);
        assert!(!r.1.approximate);
    }
}

#[test]
fn a_field_with_the_structs_own_short_name_is_another_packages_type() {
    let mut structs = vec![go_struct("Config", vec![field("A", "other.Config", 2), field("B", "other.Config", 3)])];
    for i in 0..70 {
        structs.push(go_struct(&format!("S{}", i), vec![field("x", "int64", 1)]));
    }
    let files = vec![GoFile { path: "c.go".to_string(), structs }];
    let results = try_analyze_files(&files, Arch::Amd64).expect("no size overflows");
    assert_eq!(results.len(), 71);
    let c = &results[0].1;
    assert_eq!(c.name, "Config");
    assert_eq!(c.current_size, 16);
    assert!(c.approximate);
}
