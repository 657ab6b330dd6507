use java_uml::java::{Capsulation, Class, Declaration, Field, Method, Parameter, Type};

fn text(s: &str) -> String {
    s.to_string()
}

#[test]
fn visibility_glyphs() {
    assert_eq!(Capsulation::Public.to_char(), '+');
    assert_eq!(Capsulation::Private.to_char(), '-');
    assert_eq!(Capsulation::Protected.to_char(), '#');
}

#[test]
fn field_keeps_its_parts() {
    let field = Field::new(Type(text("int")), text("x"), Capsulation::Private);
    assert_eq!(field.name, "x");
    assert_eq!(field.field_type.0, "int");
    assert_eq!(field.capsulation, Capsulation::Private);
}

#[test]
fn field_text() {
    let field = Field::new(Type(text("int")), text("x"), Capsulation::Private);
    assert_eq!(field.to_string(), "- x: int");
    let field = Field::new(Type(text("String[]")), text("names"), Capsulation::Public);
    assert_eq!(field.to_string(), "+ names: String[]");
    let field = Field::new(Type(text("Foo")), text("foo"), Capsulation::Protected);
    assert_eq!(field.to_string(), "# foo: Foo");
}

#[test]
fn parameter_text() {
    let parameter = Parameter(Type(text("int")), text("y"));
    assert_eq!(parameter.to_string(), "y: int");
}

#[test]
fn method_text_without_parameters() {
    let method = Method::new(text("run"), Type(text("void")), Vec::new(), Capsulation::Public);
    assert!(!method.is_constructor());
    assert_eq!(method.to_string(), "+ run(): void");
}

#[test]
fn method_text_with_one_parameter() {
    let method = Method::new(
        text("bar"),
        Type(text("void")),
        vec![Parameter(Type(text("int")), text("y"))],
        Capsulation::Public,
    );
    assert_eq!(method.to_string(), "+ bar(y: int): void");
}

#[test]
fn method_text_with_parameters() {
    let method = Method::new(
        text("add"),
        Type(text("long")),
        vec![
            Parameter(Type(text("int")), text("a")),
            Parameter(Type(text("int")), text("b")),
            Parameter(Type(text("long[]")), text("rest")),
        ],
        Capsulation::Private,
    );
    assert_eq!(method.to_string(), "- add(a: int, b: int, rest: long[]): long");
}

#[test]
fn constructor_text_has_no_return_type() {
    let constructor = Method::new_constructor(
        text("Foo"),
        vec![Parameter(Type(text("int")), text("x"))],
        Capsulation::Public,
    );
    assert!(constructor.is_constructor());
    assert_eq!(constructor.return_type.0, "");
    assert_eq!(constructor.name, "Foo");
    assert_eq!(constructor.to_string(), "+ Foo(x: int)");
    let bare = Method::new_constructor(text("Foo"), Vec::new(), Capsulation::Protected);
    assert_eq!(bare.to_string(), "# Foo()");
}

#[test]
fn method_without_return_type_is_a_constructor() {
    let method = Method::new(text("m"), Type(text("")), Vec::new(), Capsulation::Public);
    assert!(method.is_constructor());
    assert_eq!(method.to_string(), "+ m()");
}

#[test]
fn class_keeps_its_parts() {
    let class = Class::new(
        text("Foo"),
        vec![Field::new(Type(text("int")), text("x"), Capsulation::Private)],
        vec![Method::new_constructor(text("Foo"), Vec::new(), Capsulation::Public)],
    );
    assert_eq!(class.name, "Foo");
    assert_eq!(class.fields.len(), 1);
    assert_eq!(class.methods.len(), 1);
    assert_eq!(class.fields[0].name, "x");
    assert_eq!(class.methods[0].name, "Foo");
}

#[test]
fn declaration_holds_a_member() {
    let declaration =
        Declaration::Field(Field::new(Type(text("int")), text("x"), Capsulation::Private));
    assert!(matches!(declaration, Declaration::Field(_)));
}
