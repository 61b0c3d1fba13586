use derive_toolkit::builder::{
    generate_builder, generate_builder_struct, generate_code, generate_struct_impl,
    Accessor, Action, AssemblyOperation, AssemblyStep, CompanionType, Initial, Slot, Transfer,
};
use derive_toolkit::descriptor::{
    extract, get_data_struct, ExtractError, FieldDescriptor, StructuralError, TypeDescriptor,
};
use derive_toolkit::directive::DirectiveSyntaxError;
use derive_toolkit::shape::{
    classify, get_option_underlying_type, get_underlying_type, get_vec_underlying_type,
    is_option_type, is_vec_type, Shape, ShapeClassification,
};
use derive_toolkit::syntax::{
    Attribute, Data, Declaration, FieldDecl, GenericArg, MetaStyle, PathArguments, PathSegment,
    Token, TypeExpr,
};

fn plain(name: &str) -> TypeExpr {
    TypeExpr {
        text: name.to_string(),
        path: Some(vec![PathSegment { ident: name.to_string(), args: PathArguments::Empty }]),
    }
}

fn wrapped(wrapper: &str, inner: TypeExpr) -> TypeExpr {
    TypeExpr {
        text: format!("{}<{}>", wrapper, inner.text),
        path: Some(vec![PathSegment {
            ident: wrapper.to_string(),
            args: PathArguments::AngleBracketed(vec![GenericArg::Type(inner)]),
        }]),
    }
}

fn each(name_literal: &str) -> Attribute {
    Attribute {
        path: vec!["builder".to_string()],
        style: MetaStyle::List,
        tokens: vec![
            Token::Ident("each".to_string()),
            Token::Punct('='),
            Token::Literal(name_literal.to_string()),
        ],
    }
}

fn field(name: &str, ty: TypeExpr, attrs: Vec<Attribute>) -> FieldDecl {
    FieldDecl { name: Some(name.to_string()), ty, attrs }
}

fn record(name: &str, fields: Vec<FieldDecl>) -> Declaration {
    Declaration { name: name.to_string(), attrs: vec![], generics: vec![], data: Data::Struct(fields) }
}

fn command() -> Declaration {
    record(
        "Command",
        vec![
            field("executable", plain("String"), vec![]),
            field("args", wrapped("Vec", plain("String")), vec![each("\"arg\"")]),
            field("env", wrapped("Vec", plain("String")), vec![]),
            field("current_dir", wrapped("Option", plain("String")), vec![]),
        ],
    )
}

#[test]
fn bare_type_is_bare() {
    let ty = plain("String");
    assert_eq!(classify(&ty), ShapeClassification::Bare(&ty));
    assert_eq!(classify(&ty).shape(), Shape::Bare);
    assert!(!is_option_type(&ty));
    assert!(!is_vec_type(&ty));
}

#[test]
fn option_is_optional() {
    let ty = wrapped("Option", plain("String"));
    let inner = plain("String");
    assert_eq!(classify(&ty), ShapeClassification::Optional(&inner));
    assert_eq!(classify(&ty).element(), &inner);
    assert!(is_option_type(&ty));
    assert!(!is_vec_type(&ty));
    assert_eq!(get_option_underlying_type(&ty), Some(&inner));
    assert_eq!(get_vec_underlying_type(&ty), None);
}

#[test]
fn vec_is_repeated() {
    let ty = wrapped("Vec", plain("u8"));
    let inner = plain("u8");
    assert_eq!(classify(&ty), ShapeClassification::Repeated(&inner));
    assert!(is_vec_type(&ty));
    assert_eq!(get_vec_underlying_type(&ty), Some(&inner));
}

#[test]
fn nested_wrappers_are_classified_by_the_outer_one() {
    let ty = wrapped("Option", wrapped("Vec", plain("u8")));
    assert_eq!(classify(&ty).shape(), Shape::Optional);
    assert_eq!(classify(&ty).element().text, "Vec<u8>");
    let ty = wrapped("Vec", wrapped("Option", plain("u8")));
    assert_eq!(classify(&ty).shape(), Shape::Repeated);
}

#[test]
fn qualified_wrapper_is_bare() {
    let ty = TypeExpr {
        text: "std::option::Option<String>".to_string(),
        path: Some(vec![
            PathSegment { ident: "std".to_string(), args: PathArguments::Empty },
            PathSegment { ident: "option".to_string(), args: PathArguments::Empty },
            PathSegment {
                ident: "Option".to_string(),
                args: PathArguments::AngleBracketed(vec![GenericArg::Type(plain("String"))]),
            },
        ]),
    };
    assert_eq!(classify(&ty).shape(), Shape::Bare);
}

#[test]
fn wrapper_needs_exactly_one_type_argument() {
    let two = TypeExpr {
        text: "Vec<u8, A>".to_string(),
        path: Some(vec![PathSegment {
            ident: "Vec".to_string(),
            args: PathArguments::AngleBracketed(vec![
                GenericArg::Type(plain("u8")),
                GenericArg::Type(plain("A")),
            ]),
        }]),
    };
    assert_eq!(classify(&two).shape(), Shape::Bare);
    let lifetime = TypeExpr {
        text: "Option<'a>".to_string(),
        path: Some(vec![PathSegment {
            ident: "Option".to_string(),
            args: PathArguments::AngleBracketed(vec![GenericArg::Other("'a".to_string())]),
        }]),
    };
    assert_eq!(classify(&lifetime).shape(), Shape::Bare);
    assert_eq!(classify(&plain("Option")).shape(), Shape::Bare);
    let alias = wrapped("Maybe", plain("u8"));
    assert_eq!(classify(&alias).shape(), Shape::Bare);
    let reference = TypeExpr { text: "&'static str".to_string(), path: None };
    assert_eq!(classify(&reference), ShapeClassification::Bare(&reference));
}

#[test]
fn any_wrapper_name_can_be_asked_for() {
    let ty = wrapped("Box", plain("u8"));
    assert_eq!(get_underlying_type(&ty, "Box"), Some(&plain("u8")));
    assert_eq!(get_underlying_type(&ty, "Vec"), None);
}

#[test]
fn record_with_named_fields_is_accepted() {
    let decl = command();
    let fields = get_data_struct(&decl.data).unwrap();
    assert_eq!(fields.len(), 4);
    assert_eq!(get_data_struct(&Data::Struct(vec![])), Ok(&vec![]));
}

#[test]
fn tuple_record_is_refused() {
    let data = Data::Struct(vec![
        field("a", plain("u8"), vec![]),
        FieldDecl { name: None, ty: plain("u8"), attrs: vec![] },
    ]);
    assert_eq!(get_data_struct(&data), Err(StructuralError::TupleRecord));
    let decl = Declaration { name: "T".to_string(), attrs: vec![], generics: vec![], data };
    assert_eq!(derive_toolkit::builder::derive(&decl), Err(ExtractError::Declaration(StructuralError::TupleRecord)));
}

#[test]
fn sum_types_and_unions_are_refused() {
    assert_eq!(get_data_struct(&Data::Enum), Err(StructuralError::UnsupportedKind));
    assert_eq!(get_data_struct(&Data::Union), Err(StructuralError::UnsupportedKind));
    let decl =
        Declaration { name: "E".to_string(), attrs: vec![], generics: vec![], data: Data::Enum };
    assert_eq!(derive_toolkit::builder::derive(&decl), Err(ExtractError::Declaration(StructuralError::UnsupportedKind)));
    assert_eq!(
        generate_code(&decl),
        Err(ExtractError::Declaration(StructuralError::UnsupportedKind))
    );
}

#[test]
fn descriptor_keeps_declaration_order_and_directives() {
    let decl = command();
    let desc = extract(&decl).unwrap();
    assert_eq!(desc.name, "Command");
    let names: Vec<&str> = desc.fields.iter().map(|f| f.name.as_str()).collect();
    assert_eq!(names, vec!["executable", "args", "env", "current_dir"]);
    assert_eq!(desc.fields[1].each, Some("arg".to_string()));
    assert_eq!(desc.fields[0].each, None);
    assert_eq!(desc.fields[2].each, None);
    assert_eq!(desc.fields[1].declared_type.text, "Vec<String>");
    assert_eq!(desc.bound, None);
}

#[test]
fn directive_fault_names_the_field() {
    let mut bad = each("\"arg\"");
    bad.tokens[0] = Token::Ident("eac".to_string());
    let decl = record(
        "Command",
        vec![
            field("executable", plain("String"), vec![]),
            field("args", wrapped("Vec", plain("String")), vec![bad]),
        ],
    );
    let expected =
        ExtractError::Directive { field: 1, error: DirectiveSyntaxError::ExpectedEach };
    assert_eq!(extract(&decl), Err(expected));
    assert_eq!(derive_toolkit::builder::derive(&decl), Err(expected));
    assert_eq!(DirectiveSyntaxError::ExpectedEach.message(), "expected `each`");
}

#[test]
fn directive_fault_on_a_bare_field_is_reported_too() {
    let mut bad = each("\"arg\"");
    bad.tokens[0] = Token::Ident("eac".to_string());
    let decl = record("Command", vec![field("executable", plain("String"), vec![bad])]);
    assert_eq!(
        derive_toolkit::builder::derive(&decl),
        Err(ExtractError::Directive { field: 0, error: DirectiveSyntaxError::ExpectedEach })
    );
}

#[test]
fn first_faulty_field_is_reported() {
    let mut no_assign = each("\"x\"");
    no_assign.tokens[1] = Token::Punct(':');
    let mut bad_keyword = each("\"y\"");
    bad_keyword.tokens[0] = Token::Ident("every".to_string());
    let decl = record(
        "R",
        vec![
            field("a", wrapped("Vec", plain("u8")), vec![no_assign]),
            field("b", wrapped("Vec", plain("u8")), vec![bad_keyword]),
        ],
    );
    assert_eq!(
        derive_toolkit::builder::derive(&decl),
        Err(ExtractError::Directive { field: 0, error: DirectiveSyntaxError::ExpectedAssign })
    );
}

#[test]
fn structural_fault_comes_before_directive_faults() {
    let mut bad = each("\"arg\"");
    bad.tokens[0] = Token::Ident("eac".to_string());
    let data = Data::Struct(vec![
        field("a", plain("u8"), vec![bad]),
        FieldDecl { name: None, ty: plain("u8"), attrs: vec![] },
    ]);
    let decl = Declaration { name: "T".to_string(), attrs: vec![], generics: vec![], data };
    assert_eq!(derive_toolkit::builder::derive(&decl), Err(ExtractError::Declaration(StructuralError::TupleRecord)));
}

fn expected_companion() -> CompanionType {
    CompanionType {
        name: "CommandBuilder".to_string(),
        target: "Command".to_string(),
        slots: vec![
            Slot {
                name: "executable".to_string(),
                storage: "std::option::Option<String>".to_string(),
                initial: Initial::Absent,
            },
            Slot {
                name: "args".to_string(),
                storage: "Vec<String>".to_string(),
                initial: Initial::Empty,
            },
            Slot {
                name: "env".to_string(),
                storage: "Vec<String>".to_string(),
                initial: Initial::Empty,
            },
            Slot {
                name: "current_dir".to_string(),
                storage: "Option<String>".to_string(),
                initial: Initial::Absent,
            },
        ],
        accessors: vec![
            Accessor {
                name: "executable".to_string(),
                slot: 0,
                parameter: "String".to_string(),
                action: Action::Store,
            },
            Accessor {
                name: "arg".to_string(),
                slot: 1,
                parameter: "String".to_string(),
                action: Action::Append,
            },
            Accessor {
                name: "env".to_string(),
                slot: 2,
                parameter: "Vec<String>".to_string(),
                action: Action::Replace,
            },
            Accessor {
                name: "current_dir".to_string(),
                slot: 3,
                parameter: "String".to_string(),
                action: Action::Store,
            },
        ],
    }
}

fn expected_assembly() -> AssemblyOperation {
    AssemblyOperation {
        target: "Command".to_string(),
        steps: vec![
            AssemblyStep { field: "executable".to_string(), transfer: Transfer::Unwrap },
            AssemblyStep { field: "args".to_string(), transfer: Transfer::Through },
            AssemblyStep { field: "env".to_string(), transfer: Transfer::Through },
            AssemblyStep { field: "current_dir".to_string(), transfer: Transfer::Through },
        ],
    }
}

#[test]
fn derive_gives_companion_and_assembly() {
    let (companion, assembly) = derive_toolkit::builder::derive(&command()).unwrap();
    assert_eq!(companion, expected_companion());
    assert_eq!(assembly, expected_assembly());
}

#[test]
fn generate_code_is_what_derive_returns() {
    assert_eq!(generate_code(&command()), derive_toolkit::builder::derive(&command()));
}

#[test]
fn generator_parts_agree_with_the_whole() {
    let decl = command();
    let desc = extract(&decl).unwrap();
    assert_eq!(generate_struct_impl(&desc), expected_companion().slots);
    let (accessors, assembly) = generate_builder_struct(&desc);
    assert_eq!(accessors, expected_companion().accessors);
    assert_eq!(assembly, expected_assembly());
    assert_eq!(generate_builder(&desc), (expected_companion(), expected_assembly()));
}

#[test]
fn accessor_named_like_the_field_still_appends() {
    let decl = record(
        "R",
        vec![field("args", wrapped("Vec", plain("String")), vec![each("\"args\"")])],
    );
    let (companion, _) = derive_toolkit::builder::derive(&decl).unwrap();
    assert_eq!(
        companion.accessors,
        vec![Accessor {
            name: "args".to_string(),
            slot: 0,
            parameter: "String".to_string(),
            action: Action::Append,
        }]
    );
}

#[test]
fn accessor_name_on_an_optional_field_is_ignored() {
    let decl = record(
        "R",
        vec![field("dir", wrapped("Option", plain("String")), vec![each("\"d\"")])],
    );
    let (companion, assembly) = derive_toolkit::builder::derive(&decl).unwrap();
    assert_eq!(
        companion.accessors,
        vec![Accessor {
            name: "dir".to_string(),
            slot: 0,
            parameter: "String".to_string(),
            action: Action::Store,
        }]
    );
    assert_eq!(companion.slots[0].initial, Initial::Absent);
    assert_eq!(companion.slots[0].storage, "Option<String>");
    assert_eq!(assembly.steps[0].transfer, Transfer::Through);
}

#[test]
fn accessor_name_on_a_bare_field_is_ignored() {
    let decl = record("R", vec![field("name", plain("String"), vec![each("\"n\"")])]);
    let (companion, _) = derive_toolkit::builder::derive(&decl).unwrap();
    assert_eq!(companion.accessors[0].name, "name");
    assert_eq!(companion.accessors[0].action, Action::Store);
}

#[test]
fn empty_record_has_an_empty_companion() {
    let (companion, assembly) = derive_toolkit::builder::derive(&record("Unit", vec![])).unwrap();
    assert_eq!(
        companion,
        CompanionType {
            name: "UnitBuilder".to_string(),
            target: "Unit".to_string(),
            slots: vec![],
            accessors: vec![],
        }
    );
    assert_eq!(assembly, AssemblyOperation { target: "Unit".to_string(), steps: vec![] });
}

#[test]
fn generator_works_on_a_hand_made_descriptor() {
    let name = "Pair".to_string();
    let generics = vec![];
    let first = "first".to_string();
    let ty = plain("u8");
    let desc = TypeDescriptor {
        name: &name,
        generics: &generics,
        fields: vec![FieldDescriptor { name: &first, declared_type: &ty, each: None, format: None }],
        bound: None,
    };
    let (companion, assembly) = generate_builder(&desc);
    assert_eq!(companion.name, "PairBuilder");
    assert_eq!(companion.slots[0].storage, "std::option::Option<u8>");
    assert_eq!(assembly.steps[0].transfer, Transfer::Unwrap);
}
