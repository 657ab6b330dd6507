//! The structural model of a class: its fields and methods, their types and
//! visibility, and the one-line UML text of each member.

use vstd::prelude::*;

verus! {

/// The name of a field type or return type. The empty name stands for "no
/// return type" and marks a constructor.
#[derive(Debug)]
pub struct Type(pub String);

impl View for Type {
    type V = Seq<char>;

    open spec fn view(&self) -> Seq<char> {
        self.0@
    }
}

impl DeepView for Type {
    type V = Seq<char>;

    open spec fn deep_view(&self) -> Seq<char> {
        self@
    }
}

/// Access visibility of a member.
#[derive(Clone, Copy, Debug, PartialEq, Eq, Structural)]
pub enum Capsulation {
    Public,
    Private,
    Protected,
}

impl Capsulation {
    /// The UML glyph of a visibility: `+`, `-` or `#`.
    pub open spec fn glyph(self) -> char {
        match self {
            Capsulation::Public => '+',
            Capsulation::Private => '-',
            Capsulation::Protected => '#',
        }
    }

    /// The UML glyph of the visibility.
    pub fn to_char(&self) -> (c: char)
        ensures
            c == self.glyph(),
    {
        match *self {
            Capsulation::Public => '+',
            Capsulation::Private => '-',
            Capsulation::Protected => '#',
        }
    }

    /// The glyph and the blank that open the text of a member.
    fn prefix(&self) -> (s: &'static str)
        ensures
            s@ == seq![self.glyph(), ' '],
    {
        proof {
            reveal_strlit("+ ");
            reveal_strlit("- ");
            reveal_strlit("# ");
        }
        match *self {
            Capsulation::Public => {
                assert("+ "@ =~= seq!['+', ' ']);
                "+ "
            },
            Capsulation::Private => {
                assert("- "@ =~= seq!['-', ' ']);
                "- "
            },
            Capsulation::Protected => {
                assert("# "@ =~= seq!['#', ' ']);
                "# "
            },
        }
    }
}

/// What a field is in contracts.
pub struct FieldView {
    pub name: Seq<char>,
    pub field_type: Seq<char>,
    pub capsulation: Capsulation,
}

impl FieldView {
    /// The UML text of a field: glyph, blank, name, colon, blank, type.
    pub open spec fn render(self) -> Seq<char> {
        seq![self.capsulation.glyph(), ' '] + self.name + seq![':', ' '] + self.field_type
    }
}

/// A field of a class.
#[derive(Debug)]
pub struct Field {
    pub name: String,
    pub field_type: Type,
    pub capsulation: Capsulation,
}

impl View for Field {
    type V = FieldView;

    open spec fn view(&self) -> FieldView {
        FieldView {
            name: self.name@,
            field_type: self.field_type@,
            capsulation: self.capsulation,
        }
    }
}

impl DeepView for Field {
    type V = FieldView;

    open spec fn deep_view(&self) -> FieldView {
        self@
    }
}

impl Field {
    /// A field of the given type, name and visibility.
    pub fn new(field_type: Type, name: String, capsulation: Capsulation) -> (field: Field)
        ensures
            field.name == name,
            field.field_type == field_type,
            field.capsulation == capsulation,
    {
        Field { name, field_type, capsulation }
    }

    /// The UML text of the field.
    pub fn to_string(&self) -> (text: String)
        ensures
            text@ == self@.render(),
    {
        proof {
            reveal_strlit(": ");
        }
        assert(": "@ =~= seq![':', ' ']);
        let mut out = String::from_str(self.capsulation.prefix());
        out.append(self.name.as_str());
        out.append(": ");
        out.append(self.field_type.0.as_str());
        out
    }
}

/// What a parameter is in contracts.
pub struct ParameterView {
    pub param_type: Seq<char>,
    pub name: Seq<char>,
}

impl ParameterView {
    /// The UML text of a parameter: name, colon, blank, type.
    pub open spec fn render(self) -> Seq<char> {
        self.name + seq![':', ' '] + self.param_type
    }
}

/// A parameter of a method: its type, then its name.
#[derive(Debug)]
pub struct Parameter(pub Type, pub String);

impl View for Parameter {
    type V = ParameterView;

    open spec fn view(&self) -> ParameterView {
        ParameterView { param_type: self.0@, name: self.1@ }
    }
}

impl DeepView for Parameter {
    type V = ParameterView;

    open spec fn deep_view(&self) -> ParameterView {
        self@
    }
}

impl Parameter {
    /// The UML text of the parameter.
    pub fn to_string(&self) -> (text: String)
        ensures
            text@ == self@.render(),
    {
        proof {
            reveal_strlit(": ");
        }
        assert(": "@ =~= seq![':', ' ']);
        let mut out = self.1.clone();
        out.append(": ");
        out.append(self.0.0.as_str());
        out
    }
}

/// The UML text of a parameter list: the parameters in order, with a comma
/// and a blank between neighbours.
pub open spec fn render_parameters(params: Seq<ParameterView>) -> Seq<char>
    decreases params.len(),
{
    if params.len() == 0 {
        Seq::empty()
    } else if params.len() == 1 {
        params[0].render()
    } else {
        render_parameters(params.drop_last()) + seq![',', ' '] + params.last().render()
    }
}

/// What a method is in contracts.
pub struct MethodView {
    pub name: Seq<char>,
    pub return_type: Seq<char>,
    pub parameters: Seq<ParameterView>,
    pub capsulation: Capsulation,
}

impl MethodView {
    /// A method is a constructor exactly when its return type is empty.
    pub open spec fn is_constructor(self) -> bool {
        self.return_type.len() == 0
    }

    /// The UML text of a method: glyph, blank, name, the parameter list in
    /// parentheses, and for all but constructors a colon, a blank and the
    /// return type.
    pub open spec fn render(self) -> Seq<char> {
        let head = seq![self.capsulation.glyph(), ' '] + self.name + seq!['(']
            + render_parameters(self.parameters) + seq![')'];
        if self.is_constructor() {
            head
        } else {
            head + seq![':', ' '] + self.return_type
        }
    }
}

/// A method or a constructor of a class.
#[derive(Debug)]
pub struct Method {
    pub name: String,
    pub return_type: Type,
    pub parameters: Vec<Parameter>,
    pub capsulation: Capsulation,
}

impl View for Method {
    type V = MethodView;

    open spec fn view(&self) -> MethodView {
        MethodView {
            name: self.name@,
            return_type: self.return_type@,
            parameters: self.parameters.deep_view(),
            capsulation: self.capsulation,
        }
    }
}

impl DeepView for Method {
    type V = MethodView;

    open spec fn deep_view(&self) -> MethodView {
        self@
    }
}

impl Method {
    /// Whether the method is a constructor: whether it has no return type.
    pub fn is_constructor(&self) -> (r: bool)
        ensures
            r == self@.is_constructor(),
    {
        self.return_type.0.as_str().unicode_len() == 0
    }

    /// A method of the given name, return type, parameters and visibility.
    pub fn new(
        name: String,
        return_type: Type,
        parameters: Vec<Parameter>,
        capsulation: Capsulation,
    ) -> (method: Method)
        ensures
            method.name == name,
            method.return_type == return_type,
            method.parameters == parameters,
            method.capsulation == capsulation,
    {
        Method { name, return_type, parameters, capsulation }
    }

    /// A constructor of the given name, parameters and visibility: a method
    /// without a return type.
    pub fn new_constructor(name: String, parameters: Vec<Parameter>, capsulation: Capsulation) -> (method:
        Method)
        ensures
            method.name == name,
            method.return_type@ == Seq::<char>::empty(),
            method.parameters == parameters,
            method.capsulation == capsulation,
            method@.is_constructor(),
    {
        Method { name, return_type: Type(String::new()), parameters, capsulation }
    }

    /// The UML text of the method.
    pub fn to_string(&self) -> (text: String)
        ensures
            text@ == self@.render(),
    {
        proof {
            reveal_strlit("(");
            reveal_strlit(")");
            reveal_strlit(", ");
            reveal_strlit(": ");
        }
        assert("("@ =~= seq!['(']);
        assert(")"@ =~= seq![')']);
        assert(", "@ =~= seq![',', ' ']);
        assert(": "@ =~= seq![':', ' ']);
        let mut out = String::from_str(self.capsulation.prefix());
        out.append(self.name.as_str());
        out.append("(");
        let ghost head = out@;
        let ghost params = self.parameters.deep_view();
        let n = self.parameters.len();
        let mut i: usize = 0;
        while i < n
            invariant
                i <= n,
                n == self.parameters.len(),
                params == self.parameters.deep_view(),
                ", "@ == seq![',', ' '],
                out@ == head + render_parameters(params.take(i as int)),
            decreases n - i,
        {
            let ghost before = out@;
            if i > 0 {
                out.append(", ");
            }
            let param = self.parameters[i].to_string();
            out.append(param.as_str());
            proof {
                let upto = params.take(i + 1);
                assert(upto.drop_last() =~= params.take(i as int));
                assert(upto.last() == self.parameters[i as int]@);
                if i == 0 {
                    assert(render_parameters(params.take(0)) =~= Seq::<char>::empty());
                    assert(upto[0] == upto.last());
                    assert(out@ =~= head + render_parameters(upto));
                } else {
                    assert(out@ =~= head + render_parameters(upto));
                }
            }
            i += 1;
        }
        assert(params.take(n as int) =~= params);
        out.append(")");
        if !self.is_constructor() {
            out.append(": ");
            out.append(self.return_type.0.as_str());
        }
        assert(out@ =~= self@.render());
        out
    }
}

/// What a declaration is in contracts.
pub enum DeclarationView {
    Method(MethodView),
    Field(FieldView),
}

/// A member of a class body.
pub enum Declaration {
    Method(Method),
    Field(Field),
}

impl View for Declaration {
    type V = DeclarationView;

    open spec fn view(&self) -> DeclarationView {
        match self {
            Declaration::Method(m) => DeclarationView::Method(m@),
            Declaration::Field(f) => DeclarationView::Field(f@),
        }
    }
}

impl DeepView for Declaration {
    type V = DeclarationView;

    open spec fn deep_view(&self) -> DeclarationView {
        self@
    }
}

/// What a class is in contracts.
pub struct ClassView {
    pub name: Seq<char>,
    pub fields: Seq<FieldView>,
    pub methods: Seq<MethodView>,
}

/// A class: its name, and its fields and methods in the order of the source.
#[derive(Debug)]
pub struct Class {
    pub name: String,
    pub fields: Vec<Field>,
    pub methods: Vec<Method>,
}

impl View for Class {
    type V = ClassView;

    open spec fn view(&self) -> ClassView {
        ClassView {
            name: self.name@,
            fields: self.fields.deep_view(),
            methods: self.methods.deep_view(),
        }
    }
}

impl DeepView for Class {
    type V = ClassView;

    open spec fn deep_view(&self) -> ClassView {
        self@
    }
}

impl Class {
    /// A class of the given name, fields and methods.
    pub fn new(name: String, fields: Vec<Field>, methods: Vec<Method>) -> (class: Class)
        ensures
            class.name == name,
            class.fields == fields,
            class.methods == methods,
    {
        Class { name, fields, methods }
    }
}

} // verus!
