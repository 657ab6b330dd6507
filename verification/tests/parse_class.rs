use java_uml::java::{Capsulation, Class, Declaration};
use java_uml::parser::Parser;

fn parse(source: &str) -> (Option<Class>, Vec<(String, usize)>) {
    let mut parser = Parser::new(source);
    let class = parser.parse_class_def();
    let diagnostics = parser.diagnostics.iter().map(|d| (d.message.clone(), d.pos)).collect();
    (class, diagnostics)
}

fn parse_clean(source: &str) -> Class {
    let (class, diagnostics) = parse(source);
    assert_eq!(diagnostics, Vec::new());
    class.expect("the class parses")
}

fn parse_failure(source: &str) -> Vec<(String, usize)> {
    let (class, diagnostics) = parse(source);
    assert!(class.is_none());
    assert!(!diagnostics.is_empty());
    diagnostics
}

#[test]
fn parses_a_field_and_a_method() {
    let mut parser = Parser::new("class Foo { private int x; public void bar(int y) { return; } }");
    let class = parser.parse_class_def().expect("the class parses");
    assert!(parser.diagnostics.is_empty());
    assert_eq!(class.name, "Foo");
    assert_eq!(class.fields.len(), 1);
    assert_eq!(class.fields[0].name, "x");
    assert_eq!(class.fields[0].field_type.0, "int");
    assert_eq!(class.fields[0].capsulation, Capsulation::Private);
    assert_eq!(class.methods.len(), 1);
    assert_eq!(class.methods[0].name, "bar");
    assert_eq!(class.methods[0].return_type.0, "void");
    assert_eq!(class.methods[0].capsulation, Capsulation::Public);
    assert_eq!(class.methods[0].parameters.len(), 1);
    assert_eq!(class.methods[0].parameters[0].0.0, "int");
    assert_eq!(class.methods[0].parameters[0].1, "y");
}

#[test]
fn missing_field_name_is_reported() {
    let mut parser = Parser::new("class Bad { public int ; }");
    let class = parser.parse_class_def();
    assert!(class.is_none());
    assert_eq!(parser.diagnostics.len(), 1);
    assert_eq!(
        parser.diagnostics[0].message,
        "Unexpected Token of kind SemiColon, expected Identifier"
    );
    assert_eq!(parser.diagnostics[0].pos, 23);
}

#[test]
fn diagnostic_line() {
    let mut parser = Parser::new("class Bad { public int ; }");
    assert!(parser.parse_class_def().is_none());
    assert_eq!(
        parser.diagnostics[0].to_string(),
        "(pos 23) Parsing Error: Unexpected Token of kind SemiColon, expected Identifier"
    );
    let mut parser = Parser::new("@");
    parser.consume_token();
    assert_eq!(parser.diagnostics[0].to_string(), "(pos 0) Parsing Error: Bad character input '@'");
}

#[test]
fn empty_class() {
    let class = parse_clean("class A {}");
    assert_eq!(class.name, "A");
    assert!(class.fields.is_empty());
    assert!(class.methods.is_empty());
}

#[test]
fn members_keep_the_order_of_the_source() {
    let class = parse_clean("class A { int a; void f() {} int b; A() {} long c; void g(); }");
    let fields: Vec<&str> = class.fields.iter().map(|f| f.name.as_str()).collect();
    let methods: Vec<&str> = class.methods.iter().map(|m| m.name.as_str()).collect();
    assert_eq!(fields, vec!["a", "b", "c"]);
    assert_eq!(methods, vec!["f", "A", "g"]);
}

#[test]
fn well_formed_text_in_a_compact_style() {
    let class =
        parse_clean("class Foo{private int x;public void bar(int y,long z){return;}Foo(){}}");
    assert_eq!(class.name, "Foo");
    assert_eq!(class.fields.len(), 1);
    assert_eq!(class.fields[0].to_string(), "- x: int");
    assert_eq!(class.methods.len(), 2);
    assert_eq!(class.methods[0].to_string(), "+ bar(y: int, z: long): void");
    assert_eq!(class.methods[1].to_string(), "+ Foo()");
}

#[test]
fn well_formed_text_in_a_spacious_style() {
    let source = "\n\nclass  Foo\n{\n\tprivate  static  int[]  xs ;\n\n\tprotected  Foo (\n\t\tint  a ,\n\t\tString  b\n\t)\n\t{ this.a = a; }\n\n\tabstract  void  run ( ) ;\n}\n";
    let class = parse_clean(source);
    assert_eq!(class.name, "Foo");
    assert_eq!(class.fields.len(), 1);
    assert_eq!(class.fields[0].to_string(), "- xs: int[]");
    assert_eq!(class.methods.len(), 2);
    assert_eq!(class.methods[0].to_string(), "# Foo(a: int, b: String)");
    assert_eq!(class.methods[1].to_string(), "+ run(): void");
}

#[test]
fn text_behind_the_class_is_not_read() {
    let mut parser = Parser::new("class A { int x; } @ class B {}");
    let class = parser.parse_class_def().expect("the class parses");
    assert_eq!(class.name, "A");
    assert!(parser.diagnostics.is_empty());
}

#[test]
fn parsing_twice_gives_the_same() {
    for source in [
        "class Foo { private int x; public void bar(int y) { return; } }",
        "class Bad { public int ; }",
        "class A { @ int x; # }",
        "class A { void f(int a",
        "",
    ] {
        let (first_class, first_diagnostics) = parse(source);
        let (second_class, second_diagnostics) = parse(source);
        assert_eq!(format!("{:?}", first_class), format!("{:?}", second_class));
        assert_eq!(first_diagnostics, second_diagnostics);
    }
}

#[test]
fn constructor_is_a_method_without_return_type() {
    let class = parse_clean("class Foo { public Foo(int a) { this.a = a; } }");
    assert_eq!(class.methods.len(), 1);
    let constructor = &class.methods[0];
    assert!(constructor.is_constructor());
    assert_eq!(constructor.name, "Foo");
    assert_eq!(constructor.return_type.0, "");
    assert_eq!(constructor.capsulation, Capsulation::Public);
    assert_eq!(constructor.to_string(), "+ Foo(a: int)");
}

#[test]
fn constructor_is_told_by_the_parenthesis_alone() {
    let class = parse_clean("class Foo { Bar() {} void Foo() {} }");
    assert!(class.methods[0].is_constructor());
    assert_eq!(class.methods[0].name, "Bar");
    assert!(!class.methods[1].is_constructor());
    assert_eq!(class.methods[1].name, "Foo");
    assert_eq!(class.methods[1].return_type.0, "void");
}

#[test]
fn visibility_defaults_to_public() {
    let class = parse_clean("class A { int x; void f() {} static long y; A() {} }");
    assert_eq!(class.fields[0].capsulation, Capsulation::Public);
    assert_eq!(class.fields[1].capsulation, Capsulation::Public);
    assert_eq!(class.methods[0].capsulation, Capsulation::Public);
    assert_eq!(class.methods[1].capsulation, Capsulation::Public);
}

#[test]
fn modifiers_leave_no_trace() {
    let class = parse_clean("class A { public static final int x; }");
    assert!(class.methods.is_empty());
    assert_eq!(class.fields.len(), 1);
    assert_eq!(class.fields[0].name, "x");
    assert_eq!(class.fields[0].field_type.0, "int");
    assert_eq!(class.fields[0].capsulation, Capsulation::Public);
    assert_eq!(class.fields[0].to_string(), "+ x: int");
}

#[test]
fn visibility_keyword_may_stand_anywhere_in_the_run() {
    let class = parse_clean(
        "class A { static private int a; final abstract protected void f(); static final public int b; }",
    );
    assert_eq!(class.fields[0].capsulation, Capsulation::Private);
    assert_eq!(class.methods[0].capsulation, Capsulation::Protected);
    assert_eq!(class.fields[1].capsulation, Capsulation::Public);
}

#[test]
fn first_visibility_keyword_wins() {
    let class = parse_clean("class A { private public int a; public protected private int b; }");
    assert_eq!(class.fields[0].capsulation, Capsulation::Private);
    assert_eq!(class.fields[1].capsulation, Capsulation::Public);
}

#[test]
fn class_keyword_is_no_modifier() {
    let mut parser = Parser::new("class int x;");
    assert!(parser.parse_def().is_none());
    assert_eq!(parser.diagnostics.len(), 1);
    assert_eq!(
        parser.diagnostics[0].message,
        "Unexpected Token of kind ClassKeyword, expected Identifier"
    );
    assert_eq!(parser.diagnostics[0].pos, 0);
}

#[test]
fn class_keyword_among_the_modifiers_is_rejected() {
    let diagnostics = parse_failure("class A { class int x; }");
    assert_eq!(
        diagnostics,
        vec![("Unexpected Token of kind ClassKeyword, expected Identifier".to_string(), 10)]
    );
    let diagnostics = parse_failure("class A { public class int x; }");
    assert_eq!(
        diagnostics,
        vec![("Unexpected Token of kind ClassKeyword, expected Identifier".to_string(), 17)]
    );
}

#[test]
fn field_initializer_is_skipped() {
    let class = parse_clean("class A { int x = 5 + (3 * 2); String s = \"a, {b}\"; int y; }");
    let fields: Vec<String> = class.fields.iter().map(|f| f.to_string()).collect();
    assert_eq!(fields, vec!["+ x: int", "+ s: String", "+ y: int"]);
}

#[test]
fn field_initializer_without_end() {
    let diagnostics = parse_failure("class A { int x = 5");
    assert_eq!(
        diagnostics,
        vec![("Unexpected Token of kind Eof, expected SemiColon".to_string(), 19)]
    );
}

#[test]
fn method_without_body() {
    let class = parse_clean("class A { abstract void f(); int g(int a); }");
    assert_eq!(class.methods.len(), 2);
    assert_eq!(class.methods[0].to_string(), "+ f(): void");
    assert_eq!(class.methods[1].to_string(), "+ g(a: int): int");
}

#[test]
fn method_body_with_nested_braces_is_skipped() {
    let class = parse_clean(
        "class A { void f() { if (x) { while (y) { z(); } } else { } } int after; }",
    );
    assert_eq!(class.methods.len(), 1);
    assert_eq!(class.fields.len(), 1);
    assert_eq!(class.fields[0].name, "after");
}

#[test]
fn method_body_is_not_lexed() {
    let class = parse_clean("class A { void f() { @ # $ /* never closed } int after; }");
    assert_eq!(class.methods.len(), 1);
    assert_eq!(class.fields[0].name, "after");
}

#[test]
fn brace_in_a_string_of_a_body_counts() {
    let (class, diagnostics) = parse("class A { void f() { s = \"}\"; } int after; }");
    assert!(class.is_none());
    assert!(!diagnostics.is_empty());
    assert_eq!(diagnostics[0], ("Bad character input '\"'".to_string(), 27));
}

#[test]
fn method_body_without_end_runs_to_the_end_of_input() {
    let diagnostics = parse_failure("class A { void f() { x(); ");
    assert_eq!(
        diagnostics,
        vec![("Unexpected Token of kind Eof, expected CloseCurly".to_string(), 26)]
    );
}

#[test]
fn parameters_with_array_types() {
    let class = parse_clean("class A { static void main(String[] args, int[][] grid) {} }");
    assert_eq!(class.methods[0].to_string(), "+ main(args: String[], grid: int[][]): void");
}

#[test]
fn trailing_comma_in_parameters_is_taken() {
    let class = parse_clean("class A { void f(int a,) {} }");
    assert_eq!(class.methods[0].to_string(), "+ f(a: int): void");
}

#[test]
fn parameters_without_comma_are_rejected() {
    let diagnostics = parse_failure("class A { void f(int a int b) {} }");
    assert_eq!(
        diagnostics,
        vec![("Unexpected Token of kind Identifier, expected CloseParen".to_string(), 23)]
    );
}

#[test]
fn parameter_without_name_is_rejected() {
    let diagnostics = parse_failure("class A { void f(int) {} }");
    assert_eq!(
        diagnostics,
        vec![("Unexpected Token of kind CloseParen, expected Identifier".to_string(), 20)]
    );
}

#[test]
fn missing_closing_parenthesis() {
    let diagnostics = parse_failure("class A { void f(int a");
    assert_eq!(
        diagnostics,
        vec![("Unexpected Token of kind Eof, expected CloseParen".to_string(), 22)]
    );
}

#[test]
fn missing_closing_brace() {
    let diagnostics = parse_failure("class A { int x;");
    assert_eq!(
        diagnostics,
        vec![("Unexpected Token of kind Eof, expected CloseCurly".to_string(), 16)]
    );
}

#[test]
fn missing_body_and_semicolon() {
    let diagnostics = parse_failure("class A { void f() int x; }");
    assert_eq!(
        diagnostics,
        vec![("Unexpected Token of kind Identifier, expected OpenCurly".to_string(), 19)]
    );
}

#[test]
fn missing_class_keyword() {
    let diagnostics = parse_failure("interface A {}");
    assert_eq!(
        diagnostics,
        vec![("Unexpected Token of kind Identifier, expected ClassKeyword".to_string(), 0)]
    );
}

#[test]
fn missing_class_name() {
    let diagnostics = parse_failure("class { }");
    assert_eq!(
        diagnostics,
        vec![("Unexpected Token of kind OpenCurly, expected Identifier".to_string(), 6)]
    );
}

#[test]
fn missing_opening_brace() {
    let diagnostics = parse_failure("class A int x; }");
    assert_eq!(
        diagnostics,
        vec![("Unexpected Token of kind Identifier, expected OpenCurly".to_string(), 8)]
    );
}

#[test]
fn empty_text_is_rejected() {
    let diagnostics = parse_failure("");
    assert_eq!(
        diagnostics,
        vec![("Unexpected Token of kind Eof, expected ClassKeyword".to_string(), 0)]
    );
}

#[test]
fn keyword_in_place_of_a_name_is_rejected() {
    let diagnostics = parse_failure("class A { int final; }");
    assert_eq!(
        diagnostics,
        vec![("Unexpected Token of kind FinalKeyword, expected Identifier".to_string(), 14)]
    );
}

#[test]
fn stray_character_is_reported_each_time_it_is_passed() {
    let (class, diagnostics) = parse("class Foo { @ int x; }");
    let class = class.expect("the class is built all the same");
    assert_eq!(class.fields[0].name, "x");
    assert_eq!(
        diagnostics,
        vec![
            ("Bad character input '@'".to_string(), 12),
            ("Bad character input '@'".to_string(), 12),
            ("Bad character input '@'".to_string(), 12),
        ]
    );
}

#[test]
fn annotation_is_not_understood() {
    let diagnostics = parse_failure("class A { @Override public void f() {} }");
    assert_eq!(diagnostics.len(), 4);
    assert_eq!(diagnostics[0], ("Bad character input '@'".to_string(), 10));
    assert_eq!(
        diagnostics[3],
        ("Unexpected Token of kind PublicKeyword, expected Identifier".to_string(), 20)
    );
}

#[test]
fn garbled_texts_end() {
    for source in [
        "class",
        "class A",
        "class A {",
        "class A { int",
        "class A { int x",
        "class A { int x = ",
        "class A { void f(",
        "class A { void f(int",
        "class A { void f(int a,",
        "class A { void f(int a)",
        "class A { void f(int a) {",
        "class A { void f(int a) { {",
        "class A { @@@@ #### }",
        "class A { /* ",
        "class A { // ",
        "class A { / / / }",
        "class A { ;;;; }",
        "class A { ((((",
        "class A { }}}}",
        "class A { = = = }",
        "class A { public public public",
        "@#$%^&*",
        "/",
        "/*",
        "//",
        "\0",
        "class A { int x; \0 int y; }",
    ] {
        let mut parser = Parser::new(source);
        let class = parser.parse_class_def();
        if class.is_none() {
            assert!(!parser.diagnostics.is_empty());
        }
    }
}

#[test]
fn long_run_of_stray_characters_ends() {
    let source = format!("class A {{ {} }}", "@".repeat(2000));
    let mut parser = Parser::new(&source);
    let class = parser.parse_class_def();
    assert!(class.is_some());
    assert_eq!(parser.diagnostics.len(), 2 * 2000);
}

#[test]
fn second_class_is_parsed_from_where_the_first_ended() {
    let mut parser = Parser::new("class A { int x; } class B { }");
    let first = parser.parse_class_def().expect("the first class");
    let second = parser.parse_class_def().expect("the second class");
    assert_eq!(first.name, "A");
    assert_eq!(second.name, "B");
    assert!(parser.diagnostics.is_empty());
}

#[test]
fn comments_between_members() {
    let class = parse_clean(
        "// head\nclass /* a */ A { // first\n int x; /* int y; */ void f() {} // last\n }",
    );
    assert_eq!(class.fields.len(), 1);
    assert_eq!(class.methods.len(), 1);
}

#[test]
fn a_single_declaration() {
    let mut parser = Parser::new("  private long total = 0; rest");
    let declaration = parser.parse_def().expect("a field");
    match declaration {
        Declaration::Field(field) => {
            assert_eq!(field.name, "total");
            assert_eq!(field.field_type.0, "long");
            assert_eq!(field.capsulation, Capsulation::Private);
        }
        Declaration::Method(_) => panic!("a field was declared"),
    }
    assert_eq!(parser.consume_token().text, "rest");
}

#[test]
fn a_single_method_declaration() {
    let mut parser = Parser::new("protected int size() { return n; } rest");
    let declaration = parser.parse_def().expect("a method");
    match declaration {
        Declaration::Method(method) => {
            assert_eq!(method.to_string(), "# size(): int");
        }
        Declaration::Field(_) => panic!("a method was declared"),
    }
    assert_eq!(parser.consume_token().text, "rest");
}
